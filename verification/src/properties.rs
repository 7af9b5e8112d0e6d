//! Properties on the wire: the items that a property section is made of, how a
//! section is read into a list of items, and how each kind of value is written.
//!
//! On the wire a property section is a remaining length followed by that many
//! bytes of properties, each an identifier byte and a value. What a section means
//! is what its items, applied in order, do to an empty set of properties; the
//! connection and will sections each say that in their own module.
use crate::buf::{
    be_u16, be_u32, bytes_as_slice, bytes_contents, bytes_mut_contents, bytes_mut_put_u16,
    bytes_mut_put_u32, bytes_mut_put_u8, u16_bytes, u32_bytes,
};
use crate::codec::{
    decode_remaining_length, is_property_number, mqtt_bytes_encoding, mqtt_string_encoding,
    parse_mqtt_bytes, parse_mqtt_string, property_id, property_number, write_mqtt_bytes,
    write_mqtt_string, Error, PropertyType, Step,
};
use bytes::{Bytes, BytesMut};
use vstd::prelude::*;

verus! {

/// One property as it stands on the wire.
pub enum PropertyItem {
    SessionExpiryInterval(u32),
    ReceiveMaximum(u16),
    MaximumPacketSize(u32),
    TopicAliasMaximum(u16),
    RequestResponseInformation(u8),
    RequestProblemInformation(u8),
    UserProperty(Seq<char>, Seq<char>),
    AuthenticationMethod(Seq<char>),
    AuthenticationData(Seq<u8>),
    WillDelayInterval(u32),
    PayloadFormatIndicator(u8),
    MessageExpiryInterval(u32),
    ContentType(Seq<char>),
    ResponseTopic(Seq<char>),
    CorrelationData(Seq<u8>),
}

/// Which property section is being read.
pub enum PropertyScope {
    Connect,
    Will,
}

/// The property identifiers that a section accepts.
pub open spec fn property_allowed(scope: PropertyScope, id: u8) -> bool {
    match scope {
        PropertyScope::Connect => id == 17 || id == 33 || id == 39 || id == 34 || id == 25 || id
            == 23 || id == 38 || id == 21 || id == 22,
        PropertyScope::Will => id == 24 || id == 1 || id == 2 || id == 3 || id == 8 || id == 9
            || id == 38,
    }
}

/// The bytes of one property: its identifier, then its value.
pub open spec fn item_bytes(item: PropertyItem) -> Seq<u8> {
    match item {
        PropertyItem::SessionExpiryInterval(v) => seq![17u8] + u32_bytes(v),
        PropertyItem::ReceiveMaximum(v) => seq![33u8] + u16_bytes(v),
        PropertyItem::MaximumPacketSize(v) => seq![39u8] + u32_bytes(v),
        PropertyItem::TopicAliasMaximum(v) => seq![34u8] + u16_bytes(v),
        PropertyItem::RequestResponseInformation(v) => seq![25u8, v],
        PropertyItem::RequestProblemInformation(v) => seq![23u8, v],
        PropertyItem::UserProperty(k, v) => seq![38u8] + mqtt_string_encoding(k)
            + mqtt_string_encoding(v),
        PropertyItem::AuthenticationMethod(m) => seq![21u8] + mqtt_string_encoding(m),
        PropertyItem::AuthenticationData(d) => seq![22u8] + mqtt_bytes_encoding(d),
        PropertyItem::WillDelayInterval(v) => seq![24u8] + u32_bytes(v),
        PropertyItem::PayloadFormatIndicator(v) => seq![1u8, v],
        PropertyItem::MessageExpiryInterval(v) => seq![2u8] + u32_bytes(v),
        PropertyItem::ContentType(t) => seq![3u8] + mqtt_string_encoding(t),
        PropertyItem::ResponseTopic(t) => seq![8u8] + mqtt_string_encoding(t),
        PropertyItem::CorrelationData(d) => seq![9u8] + mqtt_bytes_encoding(d),
    }
}

/// How many bytes one property takes.
pub open spec fn item_size(item: PropertyItem) -> nat {
    item_bytes(item).len()
}
/// Reads one property of a section off the front of `s`. A fixed-size value that
/// runs past the end leaves the reader without bytes; an identifier the section
/// does not accept is refused.
pub open spec fn parse_property(s: Seq<u8>, scope: PropertyScope) -> Step<PropertyItem> {
    if s.len() == 0 {
        Step::Exhausted
    } else {
        parse_property_value(s[0], s.drop_first(), scope)
    }
}

/// Reads the value of a property with identifier `id` off the front of `r`.
pub open spec fn parse_property_value(id: u8, r: Seq<u8>, scope: PropertyScope) -> Step<
    PropertyItem,
> {
    if !property_allowed(scope, id) {
        Step::Fail(Error::InvalidPropertyType(id))
    } else if id == 17 || id == 39 || id == 24 || id == 2 {
        if r.len() < 4 {
            Step::Exhausted
        } else {
            let v = be_u32(r);
            Step::Done(
                if id == 17 {
                    PropertyItem::SessionExpiryInterval(v)
                } else if id == 39 {
                    PropertyItem::MaximumPacketSize(v)
                } else if id == 24 {
                    PropertyItem::WillDelayInterval(v)
                } else {
                    PropertyItem::MessageExpiryInterval(v)
                },
                r.skip(4),
            )
        }
    } else if id == 33 || id == 34 {
        if r.len() < 2 {
            Step::Exhausted
        } else {
            let v = be_u16(r);
            Step::Done(
                if id == 33 {
                    PropertyItem::ReceiveMaximum(v)
                } else {
                    PropertyItem::TopicAliasMaximum(v)
                },
                r.skip(2),
            )
        }
    } else if id == 25 || id == 23 || id == 1 {
        if r.len() < 1 {
            Step::Exhausted
        } else {
            let v = r[0];
            Step::Done(
                if id == 25 {
                    PropertyItem::RequestResponseInformation(v)
                } else if id == 23 {
                    PropertyItem::RequestProblemInformation(v)
                } else {
                    PropertyItem::PayloadFormatIndicator(v)
                },
                r.skip(1),
            )
        }
    } else if id == 22 || id == 9 {
        match parse_mqtt_bytes(r) {
            Step::Done(d, r2) => Step::Done(
                if id == 22 {
                    PropertyItem::AuthenticationData(d)
                } else {
                    PropertyItem::CorrelationData(d)
                },
                r2,
            ),
            Step::Fail(e) => Step::Fail(e),
            Step::Exhausted => Step::Exhausted,
        }
    } else if id == 38 {
        match parse_mqtt_string(r) {
            Step::Done(k, r2) => match parse_mqtt_string(r2) {
                Step::Done(v, r3) => Step::Done(PropertyItem::UserProperty(k, v), r3),
                Step::Fail(e) => Step::Fail(e),
                Step::Exhausted => Step::Exhausted,
            },
            Step::Fail(e) => Step::Fail(e),
            Step::Exhausted => Step::Exhausted,
        }
    } else {
        match parse_mqtt_string(r) {
            Step::Done(t, r2) => Step::Done(
                if id == 21 {
                    PropertyItem::AuthenticationMethod(t)
                } else if id == 3 {
                    PropertyItem::ContentType(t)
                } else {
                    PropertyItem::ResponseTopic(t)
                },
                r2,
            ),
            Step::Fail(e) => Step::Fail(e),
            Step::Exhausted => Step::Exhausted,
        }
    }
}

/// Reads properties off the front of `s` while fewer than `plen` bytes of them
/// have been counted (`cursor` so far). The count is of whole properties, so the
/// last one may reach past `plen`.
pub open spec fn parse_property_list(
    s: Seq<u8>,
    scope: PropertyScope,
    cursor: nat,
    plen: nat,
) -> Step<Seq<PropertyItem>>
    decreases (if cursor < plen {
        plen - cursor
    } else {
        0
    }),
{
    if cursor >= plen {
        Step::Done(seq![], s)
    } else {
        match parse_property(s, scope) {
            Step::Done(item, r) => {
                match parse_property_list(r, scope, cursor + item_size(item), plen) {
                    Step::Done(items, r2) => Step::Done(seq![item] + items, r2),
                    Step::Fail(e) => Step::Fail(e),
                    Step::Exhausted => Step::Exhausted,
                }
            },
            Step::Fail(e) => Step::Fail(e),
            Step::Exhausted => Step::Exhausted,
        }
    }
}

/// Reads a property section: its length, then its properties. A section of length
/// zero stands for no properties at all.
pub open spec fn parse_property_section(s: Seq<u8>, scope: PropertyScope) -> Step<
    Option<Seq<PropertyItem>>,
> {
    match decode_remaining_length(s) {
        Err(e) => Step::Fail(e),
        Ok((ll, plen)) => if plen == 0 {
            Step::Done(None, s.skip(ll as int))
        } else {
            match parse_property_list(s.skip(ll as int), scope, 0, plen) {
                Step::Done(items, r) => Step::Done(Some(items), r),
                Step::Fail(e) => Step::Fail(e),
                Step::Exhausted => Step::Exhausted,
            }
        },
    }
}

/// The bytes of an optional 32-bit property.
pub open spec fn opt_u32_field(id: u8, v: Option<u32>) -> Seq<u8> {
    match v {
        Some(x) => seq![id] + u32_bytes(x),
        None => seq![],
    }
}

/// The bytes of an optional 16-bit property.
pub open spec fn opt_u16_field(id: u8, v: Option<u16>) -> Seq<u8> {
    match v {
        Some(x) => seq![id] + u16_bytes(x),
        None => seq![],
    }
}

/// The bytes of an optional byte property.
pub open spec fn opt_u8_field(id: u8, v: Option<u8>) -> Seq<u8> {
    match v {
        Some(x) => seq![id, x],
        None => seq![],
    }
}

/// The bytes of an optional string property.
pub open spec fn opt_string_field(id: u8, v: Option<Seq<char>>) -> Seq<u8> {
    match v {
        Some(x) => seq![id] + mqtt_string_encoding(x),
        None => seq![],
    }
}

/// The bytes of an optional binary property.
pub open spec fn opt_data_field(id: u8, v: Option<Seq<u8>>) -> Seq<u8> {
    match v {
        Some(x) => seq![id] + mqtt_bytes_encoding(x),
        None => seq![],
    }
}

/// The bytes of a list of user properties, in order.
pub open spec fn user_properties_bytes(users: Seq<(Seq<char>, Seq<char>)>) -> Seq<u8>
    decreases users.len(),
{
    if users.len() == 0 {
        seq![]
    } else {
        user_properties_bytes(users.drop_last()) + item_bytes(
            PropertyItem::UserProperty(users.last().0, users.last().1),
        )
    }
}

/// The bytes of an optional `Bytes` value.
pub open spec fn opt_bytes_view(b: Option<Bytes>) -> Option<Seq<u8>> {
    match b {
        Some(x) => Some(bytes_contents(x)),
        None => None,
    }
}

/// How a property list read so far continues: `cur` is what reading the rest
/// gives, `consumed` what has been read, and `total` what reading the whole list
/// gives.
pub open spec fn list_continues(
    total: Step<Seq<PropertyItem>>,
    consumed: Seq<PropertyItem>,
    cur: Step<Seq<PropertyItem>>,
) -> bool {
    match cur {
        Step::Done(items, r) => total == Step::Done(consumed + items, r),
        Step::Fail(e) => total == Step::<Seq<PropertyItem>>::Fail(e),
        Step::Exhausted => total == Step::<Seq<PropertyItem>>::Exhausted,
    }
}

/// The bytes of the first `i` user properties, then the next one, are the bytes of
/// the first `i + 1`.
pub proof fn lemma_user_properties_bytes_step(users: Seq<(Seq<char>, Seq<char>)>, i: int)
    requires
        0 <= i < users.len(),
    ensures
        user_properties_bytes(users.take(i + 1)) == user_properties_bytes(users.take(i))
            + item_bytes(PropertyItem::UserProperty(users[i].0, users[i].1)),
{
    assert(users.take(i + 1).drop_last() =~= users.take(i));
}

/// The bytes of the first `i` user properties are no longer than those of all.
pub proof fn lemma_user_properties_bytes_take(users: Seq<(Seq<char>, Seq<char>)>, i: int)
    requires
        0 <= i <= users.len(),
    ensures
        user_properties_bytes(users.take(i)).len() <= user_properties_bytes(users).len(),
    decreases users.len() - i,
{
    if i < users.len() {
        lemma_user_properties_bytes_step(users, i);
        lemma_user_properties_bytes_take(users, i + 1);
    } else {
        assert(users.take(i) =~= users);
    }
}

/// Appends an optional 32-bit property: its identifier, then its big-endian value.
pub(crate) fn write_u32_property(buffer: &mut BytesMut, ptype: PropertyType, v: Option<u32>)
    requires
        bytes_mut_contents(*old(buffer)).len() + opt_u32_field(property_number(ptype), v).len()
            <= isize::MAX,
    ensures
        bytes_mut_contents(*final(buffer)) == bytes_mut_contents(*old(buffer)) + opt_u32_field(
            property_number(ptype),
            v,
        ),
{
    if let Some(x) = v {
        bytes_mut_put_u8(buffer, property_id(ptype));
        bytes_mut_put_u32(buffer, x);
    }
    assert(bytes_mut_contents(*buffer) =~= bytes_mut_contents(*old(buffer)) + opt_u32_field(
        property_number(ptype),
        v,
    ));
}

/// Appends an optional 16-bit property.
pub(crate) fn write_u16_property(buffer: &mut BytesMut, ptype: PropertyType, v: Option<u16>)
    requires
        bytes_mut_contents(*old(buffer)).len() + opt_u16_field(property_number(ptype), v).len()
            <= isize::MAX,
    ensures
        bytes_mut_contents(*final(buffer)) == bytes_mut_contents(*old(buffer)) + opt_u16_field(
            property_number(ptype),
            v,
        ),
{
    if let Some(x) = v {
        bytes_mut_put_u8(buffer, property_id(ptype));
        bytes_mut_put_u16(buffer, x);
    }
    assert(bytes_mut_contents(*buffer) =~= bytes_mut_contents(*old(buffer)) + opt_u16_field(
        property_number(ptype),
        v,
    ));
}

/// Appends an optional one-byte property.
pub(crate) fn write_u8_property(buffer: &mut BytesMut, ptype: PropertyType, v: Option<u8>)
    requires
        bytes_mut_contents(*old(buffer)).len() + opt_u8_field(property_number(ptype), v).len()
            <= isize::MAX,
    ensures
        bytes_mut_contents(*final(buffer)) == bytes_mut_contents(*old(buffer)) + opt_u8_field(
            property_number(ptype),
            v,
        ),
{
    if let Some(x) = v {
        bytes_mut_put_u8(buffer, property_id(ptype));
        bytes_mut_put_u8(buffer, x);
    }
    assert(bytes_mut_contents(*buffer) =~= bytes_mut_contents(*old(buffer)) + opt_u8_field(
        property_number(ptype),
        v,
    ));
}

/// Appends an optional string property: its identifier, then the string with its
/// length prefix.
pub(crate) fn write_string_property(buffer: &mut BytesMut, ptype: PropertyType, v: &Option<String>)
    requires
        bytes_mut_contents(*old(buffer)).len() + opt_string_field(
            property_number(ptype),
            v.deep_view(),
        ).len() <= isize::MAX,
    ensures
        bytes_mut_contents(*final(buffer)) == bytes_mut_contents(*old(buffer))
            + opt_string_field(property_number(ptype), v.deep_view()),
{
    if let Some(x) = v {
        bytes_mut_put_u8(buffer, property_id(ptype));
        write_mqtt_string(buffer, x.as_str());
    }
    assert(bytes_mut_contents(*buffer) =~= bytes_mut_contents(*old(buffer)) + opt_string_field(
        property_number(ptype),
        v.deep_view(),
    ));
}

/// Appends an optional binary property: its identifier, then the bytes with their
/// length prefix.
pub(crate) fn write_data_property(buffer: &mut BytesMut, ptype: PropertyType, v: &Option<Bytes>)
    requires
        bytes_mut_contents(*old(buffer)).len() + opt_data_field(
            property_number(ptype),
            opt_bytes_view(*v),
        ).len() <= isize::MAX,
    ensures
        bytes_mut_contents(*final(buffer)) == bytes_mut_contents(*old(buffer)) + opt_data_field(
            property_number(ptype),
            opt_bytes_view(*v),
        ),
{
    if let Some(x) = v {
        bytes_mut_put_u8(buffer, property_id(ptype));
        write_mqtt_bytes(buffer, bytes_as_slice(x));
    }
    assert(bytes_mut_contents(*buffer) =~= bytes_mut_contents(*old(buffer)) + opt_data_field(
        property_number(ptype),
        opt_bytes_view(*v),
    ));
}

/// Appends each user property in order: its identifier, the key, then the value.
pub(crate) fn write_user_properties(buffer: &mut BytesMut, users: &Vec<(String, String)>)
    requires
        bytes_mut_contents(*old(buffer)).len() + user_properties_bytes(users.deep_view()).len()
            <= isize::MAX,
    ensures
        bytes_mut_contents(*final(buffer)) == bytes_mut_contents(*old(buffer))
            + user_properties_bytes(users.deep_view()),
{
    let ghost start = bytes_mut_contents(*buffer);
    let ghost us = users.deep_view();
    proof {
        lemma_user_properties_bytes_take(us, us.len() as int);
    }
    assert(us.take(0) =~= seq![]);
    assert(start =~= start + user_properties_bytes(us.take(0)));
    let mut i: usize = 0;
    while i < users.len()
        invariant
            i <= users.len(),
            us == users.deep_view(),
            us.len() == users.len(),
            start.len() + user_properties_bytes(us).len() <= isize::MAX,
            bytes_mut_contents(*buffer) == start + user_properties_bytes(us.take(i as int)),
        decreases users.len() - i,
    {
        proof {
            lemma_user_properties_bytes_step(us, i as int);
            lemma_user_properties_bytes_take(us, i + 1);
        }
        let ghost before = bytes_mut_contents(*buffer);
        let key = &users[i].0;
        let value = &users[i].1;
        bytes_mut_put_u8(buffer, property_id(PropertyType::UserProperty));
        write_mqtt_string(buffer, key.as_str());
        write_mqtt_string(buffer, value.as_str());
        assert(bytes_mut_contents(*buffer) =~= before + item_bytes(
            PropertyItem::UserProperty(us[i as int].0, us[i as int].1),
        ));
        i = i + 1;
    }
    assert(us.take(us.len() as int) =~= us);
}

/// Each identifier that a section accepts belongs to a property kind.
pub proof fn lemma_allowed_is_property(scope: PropertyScope, id: u8)
    requires
        property_allowed(scope, id),
    ensures
        is_property_number(id),
{
    if id == 17 {
        assert(property_number(PropertyType::SessionExpiryInterval) == id);
    } else if id == 33 {
        assert(property_number(PropertyType::ReceiveMaximum) == id);
    } else if id == 39 {
        assert(property_number(PropertyType::MaximumPacketSize) == id);
    } else if id == 34 {
        assert(property_number(PropertyType::TopicAliasMaximum) == id);
    } else if id == 25 {
        assert(property_number(PropertyType::RequestResponseInformation) == id);
    } else if id == 23 {
        assert(property_number(PropertyType::RequestProblemInformation) == id);
    } else if id == 38 {
        assert(property_number(PropertyType::UserProperty) == id);
    } else if id == 21 {
        assert(property_number(PropertyType::AuthenticationMethod) == id);
    } else if id == 22 {
        assert(property_number(PropertyType::AuthenticationData) == id);
    } else if id == 24 {
        assert(property_number(PropertyType::WillDelayInterval) == id);
    } else if id == 1 {
        assert(property_number(PropertyType::PayloadFormatIndicator) == id);
    } else if id == 2 {
        assert(property_number(PropertyType::MessageExpiryInterval) == id);
    } else if id == 3 {
        assert(property_number(PropertyType::ContentType) == id);
    } else if id == 8 {
        assert(property_number(PropertyType::ResponseTopic) == id);
    } else {
        assert(property_number(PropertyType::CorrelationData) == id);
    }
}

} // verus!
