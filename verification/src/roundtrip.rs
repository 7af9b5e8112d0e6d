//! Reading back what was written: the encodings of this library are read back by
//! its readers, from the smallest pieces up to whole CONNECT packets.
use crate::buf::{be_u16, be_u32, u16_bytes, u32_bytes};
use crate::codec::{
    lemma_remaining_length_roundtrip, mqtt_bytes_encoding, mqtt_string_encoding,
    parse_mqtt_bytes, parse_mqtt_string, pow128, remaining_length_bytes, utf8_text, Step,
    MAX_REMAINING_LENGTH,
};
use crate::properties::{
    item_bytes, item_size, parse_property, parse_property_list, parse_property_section, property_allowed,
    user_properties_bytes, PropertyItem, PropertyScope,
};
use vstd::prelude::*;
use vstd::utf8::{encode_utf8, encode_utf8_decode_utf8, encode_utf8_valid_utf8};

verus! {

/// A big-endian `u16` reads back as itself.
#[verifier::spinoff_prover]
pub proof fn lemma_u16_roundtrip(v: u16, rest: Seq<u8>)
    ensures
        be_u16(u16_bytes(v) + rest) == v,
        (u16_bytes(v) + rest).skip(2) == rest,
{
    let s = u16_bytes(v) + rest;
    assert(s[0] == (v / 256) as u8);
    assert(s[1] == (v % 256) as u8);
    assert(s.skip(2) =~= rest);
}

/// A big-endian `u32` reads back as itself.
#[verifier::spinoff_prover]
pub proof fn lemma_u32_roundtrip(v: u32, rest: Seq<u8>)
    ensures
        be_u32(u32_bytes(v) + rest) == v,
        (u32_bytes(v) + rest).skip(4) == rest,
{
    let s = u32_bytes(v) + rest;
    assert(s[0] == (v / 16777216) as u8);
    assert(s[1] == ((v / 65536) % 256) as u8);
    assert(s[2] == ((v / 256) % 256) as u8);
    assert(s[3] == (v % 256) as u8);
    assert(((v / 16777216) as u8) * 16777216 + (((v / 65536) % 256) as u8) * 65536 + (((v / 256)
        % 256) as u8) * 256 + ((v % 256) as u8) == v) by (bit_vector);
    assert(s.skip(4) =~= rest);
}

/// Length-prefixed bytes shorter than 64 KiB read back as themselves.
#[verifier::spinoff_prover]
pub proof fn lemma_mqtt_bytes_roundtrip(b: Seq<u8>, rest: Seq<u8>)
    requires
        b.len() < 65536,
    ensures
        parse_mqtt_bytes(mqtt_bytes_encoding(b) + rest) == Step::Done(b, rest),
{
    let n = b.len() as u16;
    let s = mqtt_bytes_encoding(b) + rest;
    assert(s == u16_bytes(n) + (b + rest)) by {
        assert(s =~= u16_bytes(n) + (b + rest));
    }
    lemma_u16_roundtrip(n, b + rest);
    assert(be_u16(s) == b.len());
    assert(s.subrange(2, 2 + b.len() as int) == b) by {
        assert(s.subrange(2, 2 + b.len() as int) =~= b);
    }
    assert(s.skip(2 + b.len() as int) == rest) by {
        assert(s.skip(2 + b.len() as int) =~= rest);
    }
}

/// A length-prefixed string whose UTF-8 bytes are shorter than 64 KiB reads back
/// as itself.
#[verifier::spinoff_prover]
pub proof fn lemma_mqtt_string_roundtrip(t: Seq<char>, rest: Seq<u8>)
    requires
        encode_utf8(t).len() < 65536,
    ensures
        parse_mqtt_string(mqtt_string_encoding(t) + rest) == Step::Done(t, rest),
{
    reveal(utf8_text);
    lemma_mqtt_bytes_roundtrip(encode_utf8(t), rest);
    encode_utf8_valid_utf8(t);
    encode_utf8_decode_utf8(t);
}

/// The bytes of a list of properties, first to last.
pub open spec fn items_bytes(items: Seq<PropertyItem>) -> Seq<u8>
    decreases items.len(),
{
    if items.len() == 0 {
        seq![]
    } else {
        item_bytes(items[0]) + items_bytes(items.drop_first())
    }
}

/// The bytes of two lists of properties one after the other are those of each.
#[verifier::spinoff_prover]
pub proof fn lemma_items_bytes_concat(a: Seq<PropertyItem>, b: Seq<PropertyItem>)
    ensures
        items_bytes(a + b) == items_bytes(a) + items_bytes(b),
    decreases a.len(),
{
    if a.len() == 0 {
        assert(a + b =~= b);
        assert(items_bytes(a) + items_bytes(b) =~= items_bytes(b));
    } else {
        assert((a + b).drop_first() =~= a.drop_first() + b);
        assert((a + b)[0] == a[0]);
        lemma_items_bytes_concat(a.drop_first(), b);
        assert(items_bytes(a + b) =~= items_bytes(a) + items_bytes(b));
    }
}

/// The bytes of a single property.
#[verifier::spinoff_prover]
pub proof fn lemma_items_bytes_single(x: PropertyItem)
    ensures
        items_bytes(seq![x]) == item_bytes(x),
{
    assert(seq![x].drop_first() =~= Seq::<PropertyItem>::empty());
    assert(items_bytes(Seq::<PropertyItem>::empty()) =~= Seq::<u8>::empty());
    assert(items_bytes(seq![x]) =~= item_bytes(x));
}

/// The identifier byte of a property.
pub open spec fn item_id(item: PropertyItem) -> u8 {
    item_bytes(item)[0]
}

/// Whether each string and binary value of a property is shorter than 64 KiB, as
/// its length prefix must be able to say.
pub open spec fn item_fits(item: PropertyItem) -> bool {
    match item {
        PropertyItem::UserProperty(k, v) => encode_utf8(k).len() < 65536 && encode_utf8(v).len()
            < 65536,
        PropertyItem::AuthenticationMethod(t) => encode_utf8(t).len() < 65536,
        PropertyItem::ContentType(t) => encode_utf8(t).len() < 65536,
        PropertyItem::ResponseTopic(t) => encode_utf8(t).len() < 65536,
        PropertyItem::AuthenticationData(d) => d.len() < 65536,
        PropertyItem::CorrelationData(d) => d.len() < 65536,
        _ => true,
    }
}

/// Whether every property of a list is accepted by a section and fits.
pub open spec fn items_ok(items: Seq<PropertyItem>, scope: PropertyScope) -> bool {
    forall|i: int|
        0 <= i < items.len() ==> property_allowed(scope, item_id(#[trigger] items[i]))
            && item_fits(items[i])
}

/// Two lists of fitting, accepted properties make one.
#[verifier::spinoff_prover]
pub proof fn lemma_items_ok_concat(a: Seq<PropertyItem>, b: Seq<PropertyItem>, scope: PropertyScope)
    requires
        items_ok(a, scope),
        items_ok(b, scope),
    ensures
        items_ok(a + b, scope),
{
    assert forall|i: int| 0 <= i < (a + b).len() implies property_allowed(
        scope,
        item_id(#[trigger] (a + b)[i]),
    ) && item_fits((a + b)[i]) by {
        if i < a.len() {
            assert((a + b)[i] == a[i]);
        } else {
            assert((a + b)[i] == b[i - a.len()]);
        }
    }
}

/// A fixed-size property that the section accepts reads back as itself.
#[verifier::spinoff_prover]
proof fn lemma_parse_fixed_property(item: PropertyItem, scope: PropertyScope, rest: Seq<u8>)
    requires
        property_allowed(scope, item_id(item)),
        item is SessionExpiryInterval || item is MaximumPacketSize || item is WillDelayInterval
            || item is MessageExpiryInterval || item is ReceiveMaximum || item is TopicAliasMaximum
            || item is RequestResponseInformation || item is RequestProblemInformation
            || item is PayloadFormatIndicator,
    ensures
        parse_property(item_bytes(item) + rest, scope) == Step::Done(item, rest),
{
    let s = item_bytes(item) + rest;
    assert(s[0] == item_id(item));
    match item {
        PropertyItem::SessionExpiryInterval(v) => {
            assert(s.drop_first() =~= u32_bytes(v) + rest);
            lemma_u32_roundtrip(v, rest);
        },
        PropertyItem::MaximumPacketSize(v) => {
            assert(s.drop_first() =~= u32_bytes(v) + rest);
            lemma_u32_roundtrip(v, rest);
        },
        PropertyItem::WillDelayInterval(v) => {
            assert(s.drop_first() =~= u32_bytes(v) + rest);
            lemma_u32_roundtrip(v, rest);
        },
        PropertyItem::MessageExpiryInterval(v) => {
            assert(s.drop_first() =~= u32_bytes(v) + rest);
            lemma_u32_roundtrip(v, rest);
        },
        PropertyItem::ReceiveMaximum(v) => {
            assert(s.drop_first() =~= u16_bytes(v) + rest);
            lemma_u16_roundtrip(v, rest);
        },
        PropertyItem::TopicAliasMaximum(v) => {
            assert(s.drop_first() =~= u16_bytes(v) + rest);
            lemma_u16_roundtrip(v, rest);
        },
        PropertyItem::RequestResponseInformation(v) => {
            assert(s.drop_first().skip(1) =~= rest);
        },
        PropertyItem::RequestProblemInformation(v) => {
            assert(s.drop_first().skip(1) =~= rest);
        },
        PropertyItem::PayloadFormatIndicator(v) => {
            assert(s.drop_first().skip(1) =~= rest);
        },
        _ => {},
    }
}

/// A fitting user property that the section accepts reads back as itself.
#[verifier::spinoff_prover]
proof fn lemma_parse_user_property(k: Seq<char>, v: Seq<char>, scope: PropertyScope, rest: Seq<u8>)
    requires
        property_allowed(scope, 38),
        encode_utf8(k).len() < 65536,
        encode_utf8(v).len() < 65536,
    ensures
        parse_property(item_bytes(PropertyItem::UserProperty(k, v)) + rest, scope) == Step::Done(
            PropertyItem::UserProperty(k, v),
            rest,
        ),
{
    let s = item_bytes(PropertyItem::UserProperty(k, v)) + rest;
    assert(s[0] == 38);
    assert(s.drop_first() =~= mqtt_string_encoding(k) + (mqtt_string_encoding(v) + rest));
    lemma_mqtt_string_roundtrip(k, mqtt_string_encoding(v) + rest);
    lemma_mqtt_string_roundtrip(v, rest);
}

/// A fitting string property that the section accepts reads back as itself.
#[verifier::spinoff_prover]
proof fn lemma_parse_string_property(item: PropertyItem, scope: PropertyScope, rest: Seq<u8>)
    requires
        property_allowed(scope, item_id(item)),
        item_fits(item),
        item is AuthenticationMethod || item is ContentType || item is ResponseTopic,
    ensures
        parse_property(item_bytes(item) + rest, scope) == Step::Done(item, rest),
{
    let s = item_bytes(item) + rest;
    let t = match item {
        PropertyItem::AuthenticationMethod(t) => t,
        PropertyItem::ContentType(t) => t,
        PropertyItem::ResponseTopic(t) => t,
        _ => Seq::empty(),
    };
    assert(s[0] == item_id(item));
    assert(s.drop_first() =~= mqtt_string_encoding(t) + rest);
    lemma_mqtt_string_roundtrip(t, rest);
}

/// A fitting binary property that the section accepts reads back as itself.
#[verifier::spinoff_prover]
proof fn lemma_parse_data_property(item: PropertyItem, scope: PropertyScope, rest: Seq<u8>)
    requires
        property_allowed(scope, item_id(item)),
        item_fits(item),
        item is AuthenticationData || item is CorrelationData,
    ensures
        parse_property(item_bytes(item) + rest, scope) == Step::Done(item, rest),
{
    let s = item_bytes(item) + rest;
    let d = match item {
        PropertyItem::AuthenticationData(d) => d,
        PropertyItem::CorrelationData(d) => d,
        _ => Seq::empty(),
    };
    assert(s[0] == item_id(item));
    assert(s.drop_first() =~= mqtt_bytes_encoding(d) + rest);
    lemma_mqtt_bytes_roundtrip(d, rest);
}

/// One fitting property that the section accepts reads back as itself.
#[verifier::spinoff_prover]
pub proof fn lemma_parse_property_roundtrip(item: PropertyItem, scope: PropertyScope, rest: Seq<u8>)
    requires
        property_allowed(scope, item_id(item)),
        item_fits(item),
    ensures
        parse_property(item_bytes(item) + rest, scope) == Step::Done(item, rest),
{
    match item {
        PropertyItem::UserProperty(k, v) => {
            lemma_parse_user_property(k, v, scope, rest);
        },
        PropertyItem::AuthenticationMethod(..) | PropertyItem::ContentType(..)
        | PropertyItem::ResponseTopic(..) => {
            lemma_parse_string_property(item, scope, rest);
        },
        PropertyItem::AuthenticationData(..) | PropertyItem::CorrelationData(..) => {
            lemma_parse_data_property(item, scope, rest);
        },
        _ => {
            lemma_parse_fixed_property(item, scope, rest);
        },
    }
}

/// A list of fitting, accepted properties reads back as itself when its length is
/// what the section declares.
#[verifier::spinoff_prover]
pub proof fn lemma_parse_property_list_roundtrip(
    items: Seq<PropertyItem>,
    scope: PropertyScope,
    rest: Seq<u8>,
    cursor: nat,
)
    requires
        items_ok(items, scope),
    ensures
        parse_property_list(
            items_bytes(items) + rest,
            scope,
            cursor,
            cursor + items_bytes(items).len(),
        ) == Step::Done(items, rest),
    decreases items.len(),
{
    if items.len() == 0 {
        assert(items_bytes(items) + rest =~= rest);
        assert(items =~= Seq::<PropertyItem>::empty());
    } else {
        let first = items[0];
        let tail = items.drop_first();
        assert(items_ok(tail, scope)) by {
            assert forall|i: int| 0 <= i < tail.len() implies property_allowed(
                scope,
                item_id(#[trigger] tail[i]),
            ) && item_fits(tail[i]) by {
                assert(tail[i] == items[i + 1]);
            }
        }
        assert(property_allowed(scope, item_id(items[0])) && item_fits(items[0]));
        assert(items_bytes(items) == item_bytes(first) + items_bytes(tail));
        assert(item_bytes(first).len() > 0);
        assert(item_size(first) == item_bytes(first).len());
        assert(items_bytes(items) + rest == item_bytes(first) + (items_bytes(tail) + rest)) by {
            assert(items_bytes(items) + rest =~= item_bytes(first) + (items_bytes(tail) + rest));
        }
        assert(cursor + items_bytes(items).len() == cursor + item_size(first) + items_bytes(
            tail,
        ).len());
        lemma_parse_property_roundtrip(first, scope, items_bytes(tail) + rest);
        lemma_parse_property_list_roundtrip(
            tail,
            scope,
            rest,
            cursor + item_bytes(first).len(),
        );
        assert(seq![first] + tail =~= items);
    }
}

/// A property section holding a non-empty list of fitting, accepted properties
/// reads back as that list.
#[verifier::spinoff_prover]
pub proof fn lemma_property_section_roundtrip(
    items: Seq<PropertyItem>,
    scope: PropertyScope,
    rest: Seq<u8>,
)
    requires
        items_ok(items, scope),
        0 < items_bytes(items).len() <= MAX_REMAINING_LENGTH,
    ensures
        parse_property_section(
            remaining_length_bytes(items_bytes(items).len()) + items_bytes(items) + rest,
            scope,
        ) == Step::Done(Some(items), rest),
{
    let n = items_bytes(items).len();
    let s = remaining_length_bytes(n) + items_bytes(items) + rest;
    assert(pow128(4) == 268_435_456) by {
        reveal_with_fuel(pow128, 5);
    }
    assert(s =~= remaining_length_bytes(n) + (items_bytes(items) + rest));
    lemma_remaining_length_roundtrip(n, items_bytes(items) + rest, 0);
    assert(s.skip(remaining_length_bytes(n).len() as int) =~= items_bytes(items) + rest);
    lemma_parse_property_list_roundtrip(items, scope, rest, 0);
}

/// The property list that an optional value stands for: one property, or none.
pub open spec fn opt_item<T>(v: Option<T>, f: spec_fn(T) -> PropertyItem) -> Seq<PropertyItem> {
    match v {
        Some(x) => seq![f(x)],
        None => seq![],
    }
}

/// The property list of a list of user properties, in order.
pub open spec fn user_items(users: Seq<(Seq<char>, Seq<char>)>) -> Seq<PropertyItem> {
    users.map_values(|u: (Seq<char>, Seq<char>)| PropertyItem::UserProperty(u.0, u.1))
}

/// The bytes of the property list of user properties are those that are written
/// for them.
#[verifier::spinoff_prover]
pub proof fn lemma_user_items_bytes(users: Seq<(Seq<char>, Seq<char>)>)
    ensures
        items_bytes(user_items(users)) == user_properties_bytes(users),
    decreases users.len(),
{
    if users.len() == 0 {
        assert(user_items(users) =~= Seq::<PropertyItem>::empty());
    } else {
        let last = users.last();
        lemma_user_items_bytes(users.drop_last());
        assert(user_items(users) =~= user_items(users.drop_last()) + seq![
            PropertyItem::UserProperty(last.0, last.1),
        ]);
        lemma_items_bytes_concat(
            user_items(users.drop_last()),
            seq![PropertyItem::UserProperty(last.0, last.1)],
        );
        lemma_items_bytes_single(PropertyItem::UserProperty(last.0, last.1));
    }
}

/// Whether both strings of each user property are shorter than 64 KiB.
pub open spec fn users_fit(users: Seq<(Seq<char>, Seq<char>)>) -> bool {
    forall|i: int|
        0 <= i < users.len() ==> encode_utf8(#[trigger] users[i].0).len() < 65536 && encode_utf8(
            users[i].1,
        ).len() < 65536
}

/// The property list of fitting user properties is accepted by either section.
#[verifier::spinoff_prover]
pub proof fn lemma_user_items_ok(users: Seq<(Seq<char>, Seq<char>)>, scope: PropertyScope)
    requires
        users_fit(users),
    ensures
        items_ok(user_items(users), scope),
{
    assert forall|i: int| 0 <= i < user_items(users).len() implies property_allowed(
        scope,
        item_id(#[trigger] user_items(users)[i]),
    ) && item_fits(user_items(users)[i]) by {
        assert(user_items(users)[i] == PropertyItem::UserProperty(users[i].0, users[i].1));
        assert(encode_utf8(users[i].0).len() < 65536);
    }
}

/// A list of at most one property is accepted when that property is.
#[verifier::spinoff_prover]
pub proof fn lemma_opt_item_ok<T>(v: Option<T>, f: spec_fn(T) -> PropertyItem, scope: PropertyScope)
    requires
        v matches Some(x) ==> property_allowed(scope, item_id(f(x))) && item_fits(f(x)),
    ensures
        items_ok(opt_item(v, f), scope),
{
}

/// The bytes of a list of at most one property.
#[verifier::spinoff_prover]
pub proof fn lemma_opt_item_bytes<T>(v: Option<T>, f: spec_fn(T) -> PropertyItem)
    ensures
        items_bytes(opt_item(v, f)) == (match v {
            Some(x) => item_bytes(f(x)),
            None => Seq::<u8>::empty(),
        }),
{
    match v {
        Some(x) => lemma_items_bytes_single(f(x)),
        None => {},
    }
}

} // verus!
