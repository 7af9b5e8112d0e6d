//! Reading back the property sections of a CONNECT packet: what is written for a
//! set of connection or will properties reads back as the same set.
use crate::codec::{remaining_length_bytes, Step, MAX_REMAINING_LENGTH};
use crate::connect_properties::{
    apply_connect_property, connect_properties_bytes, connect_properties_fold,
    connect_properties_from, empty_connect_properties,
    parse_connect_properties, ConnectPropertiesView,
};
use crate::properties::{item_bytes, PropertyItem, PropertyScope};
use crate::will_properties::{
    apply_will_property, empty_will_properties, parse_will_properties, will_properties_bytes,
    will_properties_fold, will_properties_from, WillPropertiesView,
};
use crate::roundtrip::{
    item_id, items_bytes, items_ok, lemma_items_bytes_concat, lemma_items_bytes_single,
    lemma_items_ok_concat, lemma_opt_item_bytes, lemma_opt_item_ok, lemma_property_section_roundtrip,
    lemma_user_items_bytes, lemma_user_items_ok, opt_item, user_items, users_fit,
};
use vstd::prelude::*;
use vstd::utf8::encode_utf8;

verus! {

/// The property list that is written for a set of connection properties, in the
/// order it is written.
pub open spec fn connect_items(p: ConnectPropertiesView) -> Seq<PropertyItem> {
    opt_item(p.session_expiry_interval, |v: u32| PropertyItem::SessionExpiryInterval(v))
        + opt_item(p.receive_maximum, |v: u16| PropertyItem::ReceiveMaximum(v))
        + opt_item(p.max_packet_size, |v: u32| PropertyItem::MaximumPacketSize(v))
        + opt_item(p.topic_alias_max, |v: u16| PropertyItem::TopicAliasMaximum(v))
        + opt_item(p.request_response_info, |v: u8| PropertyItem::RequestResponseInformation(v))
        + opt_item(p.request_problem_info, |v: u8| PropertyItem::RequestProblemInformation(v))
        + user_items(p.user_properties)
        + opt_item(p.authentication_method, |t: Seq<char>| PropertyItem::AuthenticationMethod(t))
        + opt_item(p.authentication_data, |d: Seq<u8>| PropertyItem::AuthenticationData(d))
}

/// Whether every string and binary value of a set of connection properties is
/// shorter than 64 KiB, as its length prefix must be able to say.
pub open spec fn connect_properties_fit(p: ConnectPropertiesView) -> bool {
    &&& users_fit(p.user_properties)
    &&& (p.authentication_method matches Some(m) ==> encode_utf8(m).len() < 65536)
    &&& (p.authentication_data matches Some(d) ==> d.len() < 65536)
}

/// The bytes of the property list of a set of connection properties are those
/// written for the set.
#[verifier::spinoff_prover]
pub proof fn lemma_connect_items_bytes(p: ConnectPropertiesView)
    ensures
        items_bytes(connect_items(p)) == connect_properties_bytes(p),
{
    let a1 = opt_item(p.session_expiry_interval, |v: u32| PropertyItem::SessionExpiryInterval(v));
    let a2 = opt_item(p.receive_maximum, |v: u16| PropertyItem::ReceiveMaximum(v));
    let a3 = opt_item(p.max_packet_size, |v: u32| PropertyItem::MaximumPacketSize(v));
    let a4 = opt_item(p.topic_alias_max, |v: u16| PropertyItem::TopicAliasMaximum(v));
    let a5 = opt_item(
        p.request_response_info,
        |v: u8| PropertyItem::RequestResponseInformation(v),
    );
    let a6 = opt_item(p.request_problem_info, |v: u8| PropertyItem::RequestProblemInformation(v));
    let a7 = user_items(p.user_properties);
    let a8 = opt_item(
        p.authentication_method,
        |t: Seq<char>| PropertyItem::AuthenticationMethod(t),
    );
    let a9 = opt_item(p.authentication_data, |d: Seq<u8>| PropertyItem::AuthenticationData(d));
    lemma_opt_item_bytes(p.session_expiry_interval, |v: u32| PropertyItem::SessionExpiryInterval(v));
    lemma_opt_item_bytes(p.receive_maximum, |v: u16| PropertyItem::ReceiveMaximum(v));
    lemma_opt_item_bytes(p.max_packet_size, |v: u32| PropertyItem::MaximumPacketSize(v));
    lemma_opt_item_bytes(p.topic_alias_max, |v: u16| PropertyItem::TopicAliasMaximum(v));
    lemma_opt_item_bytes(
        p.request_response_info,
        |v: u8| PropertyItem::RequestResponseInformation(v),
    );
    lemma_opt_item_bytes(
        p.request_problem_info,
        |v: u8| PropertyItem::RequestProblemInformation(v),
    );
    lemma_user_items_bytes(p.user_properties);
    lemma_opt_item_bytes(
        p.authentication_method,
        |t: Seq<char>| PropertyItem::AuthenticationMethod(t),
    );
    lemma_opt_item_bytes(p.authentication_data, |d: Seq<u8>| PropertyItem::AuthenticationData(d));
    lemma_items_bytes_concat(a1, a2);
    lemma_items_bytes_concat(a1 + a2, a3);
    lemma_items_bytes_concat(a1 + a2 + a3, a4);
    lemma_items_bytes_concat(a1 + a2 + a3 + a4, a5);
    lemma_items_bytes_concat(a1 + a2 + a3 + a4 + a5, a6);
    lemma_items_bytes_concat(a1 + a2 + a3 + a4 + a5 + a6, a7);
    lemma_items_bytes_concat(a1 + a2 + a3 + a4 + a5 + a6 + a7, a8);
    lemma_items_bytes_concat(a1 + a2 + a3 + a4 + a5 + a6 + a7 + a8, a9);
    assert(items_bytes(a1) =~= crate::properties::opt_u32_field(17, p.session_expiry_interval));
    assert(items_bytes(a2) =~= crate::properties::opt_u16_field(33, p.receive_maximum));
    assert(items_bytes(a3) =~= crate::properties::opt_u32_field(39, p.max_packet_size));
    assert(items_bytes(a4) =~= crate::properties::opt_u16_field(34, p.topic_alias_max));
    assert(items_bytes(a5) =~= crate::properties::opt_u8_field(25, p.request_response_info));
    assert(items_bytes(a6) =~= crate::properties::opt_u8_field(23, p.request_problem_info));
    assert(items_bytes(a8) =~= crate::properties::opt_string_field(21, p.authentication_method));
    assert(items_bytes(a9) =~= crate::properties::opt_data_field(22, p.authentication_data));
}

/// Applying two property lists one after the other is applying the first, then
/// the second.
#[verifier::spinoff_prover]
pub proof fn lemma_connect_fold_concat(
    acc: ConnectPropertiesView,
    a: Seq<PropertyItem>,
    b: Seq<PropertyItem>,
)
    ensures
        connect_properties_fold(acc, a + b) == connect_properties_fold(
            connect_properties_fold(acc, a),
            b,
        ),
    decreases b.len(),
{
    if b.len() == 0 {
        assert(a + b =~= a);
    } else {
        assert((a + b).drop_last() =~= a + b.drop_last());
        assert((a + b).last() == b.last());
        lemma_connect_fold_concat(acc, a, b.drop_last());
    }
}

/// Applying a list of at most one property.
#[verifier::spinoff_prover]
pub proof fn lemma_connect_fold_opt<T>(
    acc: ConnectPropertiesView,
    v: Option<T>,
    f: spec_fn(T) -> PropertyItem,
)
    ensures
        connect_properties_fold(acc, opt_item(v, f)) == (match v {
            Some(x) => apply_connect_property(acc, f(x)),
            None => acc,
        }),
{
    match v {
        Some(x) => {
            assert(opt_item(v, f).drop_last() =~= Seq::<PropertyItem>::empty());
            assert(connect_properties_fold(acc, Seq::<PropertyItem>::empty()) == acc);
            assert(opt_item(v, f).last() == f(x));
        },
        None => {},
    }
}

/// Applying user properties appends them, in order.
#[verifier::spinoff_prover]
pub proof fn lemma_connect_fold_users(
    acc: ConnectPropertiesView,
    users: Seq<(Seq<char>, Seq<char>)>,
)
    ensures
        connect_properties_fold(acc, user_items(users)) == (ConnectPropertiesView {
            user_properties: acc.user_properties + users,
            ..acc
        }),
    decreases users.len(),
{
    if users.len() == 0 {
        assert(user_items(users) =~= Seq::<PropertyItem>::empty());
        assert(acc.user_properties + users =~= acc.user_properties);
    } else {
        let last = users.last();
        assert(user_items(users).drop_last() =~= user_items(users.drop_last()));
        assert(user_items(users).last() == PropertyItem::UserProperty(last.0, last.1));
        lemma_connect_fold_users(acc, users.drop_last());
        assert((acc.user_properties + users.drop_last()).push((last.0, last.1))
            =~= acc.user_properties + users);
    }
}

/// The set of connection properties that the written property list stands for is
/// the set that was written.
#[verifier::spinoff_prover]
pub proof fn lemma_connect_items_from(p: ConnectPropertiesView)
    ensures
        connect_properties_from(connect_items(p)) == p,
{
    let e = empty_connect_properties();
    let a1 = opt_item(p.session_expiry_interval, |v: u32| PropertyItem::SessionExpiryInterval(v));
    let a2 = opt_item(p.receive_maximum, |v: u16| PropertyItem::ReceiveMaximum(v));
    let a3 = opt_item(p.max_packet_size, |v: u32| PropertyItem::MaximumPacketSize(v));
    let a4 = opt_item(p.topic_alias_max, |v: u16| PropertyItem::TopicAliasMaximum(v));
    let a5 = opt_item(
        p.request_response_info,
        |v: u8| PropertyItem::RequestResponseInformation(v),
    );
    let a6 = opt_item(p.request_problem_info, |v: u8| PropertyItem::RequestProblemInformation(v));
    let a7 = user_items(p.user_properties);
    let a8 = opt_item(
        p.authentication_method,
        |t: Seq<char>| PropertyItem::AuthenticationMethod(t),
    );
    let a9 = opt_item(p.authentication_data, |d: Seq<u8>| PropertyItem::AuthenticationData(d));
    lemma_connect_fold_concat(e, a1, a2);
    lemma_connect_fold_concat(e, a1 + a2, a3);
    lemma_connect_fold_concat(e, a1 + a2 + a3, a4);
    lemma_connect_fold_concat(e, a1 + a2 + a3 + a4, a5);
    lemma_connect_fold_concat(e, a1 + a2 + a3 + a4 + a5, a6);
    lemma_connect_fold_concat(e, a1 + a2 + a3 + a4 + a5 + a6, a7);
    lemma_connect_fold_concat(e, a1 + a2 + a3 + a4 + a5 + a6 + a7, a8);
    lemma_connect_fold_concat(e, a1 + a2 + a3 + a4 + a5 + a6 + a7 + a8, a9);
    let s1 = connect_properties_fold(e, a1);
    lemma_connect_fold_opt(e, p.session_expiry_interval, |v: u32| PropertyItem::SessionExpiryInterval(v));
    let s2 = connect_properties_fold(s1, a2);
    lemma_connect_fold_opt(s1, p.receive_maximum, |v: u16| PropertyItem::ReceiveMaximum(v));
    let s3 = connect_properties_fold(s2, a3);
    lemma_connect_fold_opt(s2, p.max_packet_size, |v: u32| PropertyItem::MaximumPacketSize(v));
    let s4 = connect_properties_fold(s3, a4);
    lemma_connect_fold_opt(s3, p.topic_alias_max, |v: u16| PropertyItem::TopicAliasMaximum(v));
    let s5 = connect_properties_fold(s4, a5);
    lemma_connect_fold_opt(
        s4,
        p.request_response_info,
        |v: u8| PropertyItem::RequestResponseInformation(v),
    );
    let s6 = connect_properties_fold(s5, a6);
    lemma_connect_fold_opt(
        s5,
        p.request_problem_info,
        |v: u8| PropertyItem::RequestProblemInformation(v),
    );
    let s7 = connect_properties_fold(s6, a7);
    lemma_connect_fold_users(s6, p.user_properties);
    let s8 = connect_properties_fold(s7, a8);
    lemma_connect_fold_opt(
        s7,
        p.authentication_method,
        |t: Seq<char>| PropertyItem::AuthenticationMethod(t),
    );
    let s9 = connect_properties_fold(s8, a9);
    lemma_connect_fold_opt(s8, p.authentication_data, |d: Seq<u8>| PropertyItem::AuthenticationData(d));
    assert(Seq::<(Seq<char>, Seq<char>)>::empty() + p.user_properties =~= p.user_properties);
    assert(s9 == p);
}

/// The written property list of fitting connection properties is accepted by the
/// connection section.
#[verifier::spinoff_prover]
pub proof fn lemma_connect_items_ok(p: ConnectPropertiesView)
    requires
        connect_properties_fit(p),
    ensures
        items_ok(connect_items(p), PropertyScope::Connect),
{
    let c = PropertyScope::Connect;
    let a1 = opt_item(p.session_expiry_interval, |v: u32| PropertyItem::SessionExpiryInterval(v));
    let a2 = opt_item(p.receive_maximum, |v: u16| PropertyItem::ReceiveMaximum(v));
    let a3 = opt_item(p.max_packet_size, |v: u32| PropertyItem::MaximumPacketSize(v));
    let a4 = opt_item(p.topic_alias_max, |v: u16| PropertyItem::TopicAliasMaximum(v));
    let a5 = opt_item(
        p.request_response_info,
        |v: u8| PropertyItem::RequestResponseInformation(v),
    );
    let a6 = opt_item(p.request_problem_info, |v: u8| PropertyItem::RequestProblemInformation(v));
    let a7 = user_items(p.user_properties);
    let a8 = opt_item(
        p.authentication_method,
        |t: Seq<char>| PropertyItem::AuthenticationMethod(t),
    );
    let a9 = opt_item(p.authentication_data, |d: Seq<u8>| PropertyItem::AuthenticationData(d));
    lemma_opt_item_ok(p.session_expiry_interval, |v: u32| PropertyItem::SessionExpiryInterval(v), c);
    lemma_opt_item_ok(p.receive_maximum, |v: u16| PropertyItem::ReceiveMaximum(v), c);
    lemma_opt_item_ok(p.max_packet_size, |v: u32| PropertyItem::MaximumPacketSize(v), c);
    lemma_opt_item_ok(p.topic_alias_max, |v: u16| PropertyItem::TopicAliasMaximum(v), c);
    lemma_opt_item_ok(
        p.request_response_info,
        |v: u8| PropertyItem::RequestResponseInformation(v),
        c,
    );
    lemma_opt_item_ok(
        p.request_problem_info,
        |v: u8| PropertyItem::RequestProblemInformation(v),
        c,
    );
    lemma_user_items_ok(p.user_properties, c);
    lemma_opt_item_ok(
        p.authentication_method,
        |t: Seq<char>| PropertyItem::AuthenticationMethod(t),
        c,
    );
    lemma_opt_item_ok(p.authentication_data, |d: Seq<u8>| PropertyItem::AuthenticationData(d), c);
    lemma_items_ok_concat(a1, a2, c);
    lemma_items_ok_concat(a1 + a2, a3, c);
    lemma_items_ok_concat(a1 + a2 + a3, a4, c);
    lemma_items_ok_concat(a1 + a2 + a3 + a4, a5, c);
    lemma_items_ok_concat(a1 + a2 + a3 + a4 + a5, a6, c);
    lemma_items_ok_concat(a1 + a2 + a3 + a4 + a5 + a6, a7, c);
    lemma_items_ok_concat(a1 + a2 + a3 + a4 + a5 + a6 + a7, a8, c);
    lemma_items_ok_concat(a1 + a2 + a3 + a4 + a5 + a6 + a7 + a8, a9, c);
}

/// A connection property section holding fitting properties reads back as the
/// same properties, when the section is not empty and its length fits.
#[verifier::spinoff_prover]
pub proof fn lemma_connect_properties_roundtrip(p: ConnectPropertiesView, rest: Seq<u8>)
    requires
        connect_properties_fit(p),
        0 < connect_properties_bytes(p).len() <= MAX_REMAINING_LENGTH,
    ensures
        parse_connect_properties(
            remaining_length_bytes(connect_properties_bytes(p).len()) + connect_properties_bytes(p)
                + rest,
        ) == Step::Done(Some(p), rest),
{
    lemma_connect_items_bytes(p);
    lemma_connect_items_ok(p);
    lemma_connect_items_from(p);
    lemma_property_section_roundtrip(connect_items(p), PropertyScope::Connect, rest);
}

/// The property list that is written for a set of will properties, in the order
/// it is written.
pub open spec fn will_items(p: WillPropertiesView) -> Seq<PropertyItem> {
    opt_item(p.delay_interval, |v: u32| PropertyItem::WillDelayInterval(v))
        + opt_item(p.payload_format_indicator, |v: u8| PropertyItem::PayloadFormatIndicator(v))
        + opt_item(p.message_expiry_interval, |v: u32| PropertyItem::MessageExpiryInterval(v))
        + opt_item(p.content_type, |t: Seq<char>| PropertyItem::ContentType(t))
        + opt_item(p.response_topic, |t: Seq<char>| PropertyItem::ResponseTopic(t))
        + opt_item(p.correlation_data, |d: Seq<u8>| PropertyItem::CorrelationData(d))
        + user_items(p.user_properties)
}

/// Whether every string and binary value of a set of will properties is shorter
/// than 64 KiB, as its length prefix must be able to say.
pub open spec fn will_properties_fit(p: WillPropertiesView) -> bool {
    &&& users_fit(p.user_properties)
    &&& (p.content_type matches Some(t) ==> encode_utf8(t).len() < 65536)
    &&& (p.response_topic matches Some(t) ==> encode_utf8(t).len() < 65536)
    &&& (p.correlation_data matches Some(d) ==> d.len() < 65536)
}

/// The bytes of the property list of a set of will properties are those written
/// for the set.
#[verifier::spinoff_prover]
pub proof fn lemma_will_items_bytes(p: WillPropertiesView)
    ensures
        items_bytes(will_items(p)) == will_properties_bytes(p),
{
    let a1 = opt_item(p.delay_interval, |v: u32| PropertyItem::WillDelayInterval(v));
    let a2 = opt_item(p.payload_format_indicator, |v: u8| PropertyItem::PayloadFormatIndicator(v));
    let a3 = opt_item(p.message_expiry_interval, |v: u32| PropertyItem::MessageExpiryInterval(v));
    let a4 = opt_item(p.content_type, |t: Seq<char>| PropertyItem::ContentType(t));
    let a5 = opt_item(p.response_topic, |t: Seq<char>| PropertyItem::ResponseTopic(t));
    let a6 = opt_item(p.correlation_data, |d: Seq<u8>| PropertyItem::CorrelationData(d));
    let a7 = user_items(p.user_properties);
    lemma_opt_item_bytes(p.delay_interval, |v: u32| PropertyItem::WillDelayInterval(v));
    lemma_opt_item_bytes(
        p.payload_format_indicator,
        |v: u8| PropertyItem::PayloadFormatIndicator(v),
    );
    lemma_opt_item_bytes(
        p.message_expiry_interval,
        |v: u32| PropertyItem::MessageExpiryInterval(v),
    );
    lemma_opt_item_bytes(p.content_type, |t: Seq<char>| PropertyItem::ContentType(t));
    lemma_opt_item_bytes(p.response_topic, |t: Seq<char>| PropertyItem::ResponseTopic(t));
    lemma_opt_item_bytes(p.correlation_data, |d: Seq<u8>| PropertyItem::CorrelationData(d));
    lemma_user_items_bytes(p.user_properties);
    lemma_items_bytes_concat(a1, a2);
    lemma_items_bytes_concat(a1 + a2, a3);
    lemma_items_bytes_concat(a1 + a2 + a3, a4);
    lemma_items_bytes_concat(a1 + a2 + a3 + a4, a5);
    lemma_items_bytes_concat(a1 + a2 + a3 + a4 + a5, a6);
    lemma_items_bytes_concat(a1 + a2 + a3 + a4 + a5 + a6, a7);
    assert(items_bytes(a1) =~= crate::properties::opt_u32_field(24, p.delay_interval));
    assert(items_bytes(a2) =~= crate::properties::opt_u8_field(1, p.payload_format_indicator));
    assert(items_bytes(a3) =~= crate::properties::opt_u32_field(2, p.message_expiry_interval));
    assert(items_bytes(a4) =~= crate::properties::opt_string_field(3, p.content_type));
    assert(items_bytes(a5) =~= crate::properties::opt_string_field(8, p.response_topic));
    assert(items_bytes(a6) =~= crate::properties::opt_data_field(9, p.correlation_data));
}

/// Applying two property lists one after the other is applying the first, then
/// the second.
#[verifier::spinoff_prover]
pub proof fn lemma_will_fold_concat(acc: WillPropertiesView, a: Seq<PropertyItem>, b: Seq<PropertyItem>)
    ensures
        will_properties_fold(acc, a + b) == will_properties_fold(will_properties_fold(acc, a), b),
    decreases b.len(),
{
    if b.len() == 0 {
        assert(a + b =~= a);
    } else {
        assert((a + b).drop_last() =~= a + b.drop_last());
        assert((a + b).last() == b.last());
        lemma_will_fold_concat(acc, a, b.drop_last());
    }
}

/// Applying a list of at most one property.
#[verifier::spinoff_prover]
pub proof fn lemma_will_fold_opt<T>(acc: WillPropertiesView, v: Option<T>, f: spec_fn(T) -> PropertyItem)
    ensures
        will_properties_fold(acc, opt_item(v, f)) == (match v {
            Some(x) => apply_will_property(acc, f(x)),
            None => acc,
        }),
{
    match v {
        Some(x) => {
            assert(opt_item(v, f).drop_last() =~= Seq::<PropertyItem>::empty());
            assert(will_properties_fold(acc, Seq::<PropertyItem>::empty()) == acc);
            assert(opt_item(v, f).last() == f(x));
        },
        None => {},
    }
}

/// Applying user properties appends them, in order.
#[verifier::spinoff_prover]
pub proof fn lemma_will_fold_users(acc: WillPropertiesView, users: Seq<(Seq<char>, Seq<char>)>)
    ensures
        will_properties_fold(acc, user_items(users)) == (WillPropertiesView {
            user_properties: acc.user_properties + users,
            ..acc
        }),
    decreases users.len(),
{
    if users.len() == 0 {
        assert(user_items(users) =~= Seq::<PropertyItem>::empty());
        assert(acc.user_properties + users =~= acc.user_properties);
    } else {
        let last = users.last();
        assert(user_items(users).drop_last() =~= user_items(users.drop_last()));
        assert(user_items(users).last() == PropertyItem::UserProperty(last.0, last.1));
        lemma_will_fold_users(acc, users.drop_last());
        assert((acc.user_properties + users.drop_last()).push((last.0, last.1))
            =~= acc.user_properties + users);
    }
}

/// The set of will properties that the written property list stands for is the
/// set that was written.
#[verifier::spinoff_prover]
pub proof fn lemma_will_items_from(p: WillPropertiesView)
    ensures
        will_properties_from(will_items(p)) == p,
{
    let e = empty_will_properties();
    let a1 = opt_item(p.delay_interval, |v: u32| PropertyItem::WillDelayInterval(v));
    let a2 = opt_item(p.payload_format_indicator, |v: u8| PropertyItem::PayloadFormatIndicator(v));
    let a3 = opt_item(p.message_expiry_interval, |v: u32| PropertyItem::MessageExpiryInterval(v));
    let a4 = opt_item(p.content_type, |t: Seq<char>| PropertyItem::ContentType(t));
    let a5 = opt_item(p.response_topic, |t: Seq<char>| PropertyItem::ResponseTopic(t));
    let a6 = opt_item(p.correlation_data, |d: Seq<u8>| PropertyItem::CorrelationData(d));
    let a7 = user_items(p.user_properties);
    lemma_will_fold_concat(e, a1, a2);
    lemma_will_fold_concat(e, a1 + a2, a3);
    lemma_will_fold_concat(e, a1 + a2 + a3, a4);
    lemma_will_fold_concat(e, a1 + a2 + a3 + a4, a5);
    lemma_will_fold_concat(e, a1 + a2 + a3 + a4 + a5, a6);
    lemma_will_fold_concat(e, a1 + a2 + a3 + a4 + a5 + a6, a7);
    let s1 = will_properties_fold(e, a1);
    lemma_will_fold_opt(e, p.delay_interval, |v: u32| PropertyItem::WillDelayInterval(v));
    let s2 = will_properties_fold(s1, a2);
    lemma_will_fold_opt(
        s1,
        p.payload_format_indicator,
        |v: u8| PropertyItem::PayloadFormatIndicator(v),
    );
    let s3 = will_properties_fold(s2, a3);
    lemma_will_fold_opt(
        s2,
        p.message_expiry_interval,
        |v: u32| PropertyItem::MessageExpiryInterval(v),
    );
    let s4 = will_properties_fold(s3, a4);
    lemma_will_fold_opt(s3, p.content_type, |t: Seq<char>| PropertyItem::ContentType(t));
    let s5 = will_properties_fold(s4, a5);
    lemma_will_fold_opt(s4, p.response_topic, |t: Seq<char>| PropertyItem::ResponseTopic(t));
    let s6 = will_properties_fold(s5, a6);
    lemma_will_fold_opt(s5, p.correlation_data, |d: Seq<u8>| PropertyItem::CorrelationData(d));
    let s7 = will_properties_fold(s6, a7);
    lemma_will_fold_users(s6, p.user_properties);
    assert(Seq::<(Seq<char>, Seq<char>)>::empty() + p.user_properties =~= p.user_properties);
    assert(s7 == p);
}

/// The written property list of fitting will properties is accepted by the will
/// section.
#[verifier::spinoff_prover]
pub proof fn lemma_will_items_ok(p: WillPropertiesView)
    requires
        will_properties_fit(p),
    ensures
        items_ok(will_items(p), PropertyScope::Will),
{
    let c = PropertyScope::Will;
    let a1 = opt_item(p.delay_interval, |v: u32| PropertyItem::WillDelayInterval(v));
    let a2 = opt_item(p.payload_format_indicator, |v: u8| PropertyItem::PayloadFormatIndicator(v));
    let a3 = opt_item(p.message_expiry_interval, |v: u32| PropertyItem::MessageExpiryInterval(v));
    let a4 = opt_item(p.content_type, |t: Seq<char>| PropertyItem::ContentType(t));
    let a5 = opt_item(p.response_topic, |t: Seq<char>| PropertyItem::ResponseTopic(t));
    let a6 = opt_item(p.correlation_data, |d: Seq<u8>| PropertyItem::CorrelationData(d));
    let a7 = user_items(p.user_properties);
    lemma_opt_item_ok(p.delay_interval, |v: u32| PropertyItem::WillDelayInterval(v), c);
    lemma_opt_item_ok(
        p.payload_format_indicator,
        |v: u8| PropertyItem::PayloadFormatIndicator(v),
        c,
    );
    lemma_opt_item_ok(
        p.message_expiry_interval,
        |v: u32| PropertyItem::MessageExpiryInterval(v),
        c,
    );
    lemma_opt_item_ok(p.content_type, |t: Seq<char>| PropertyItem::ContentType(t), c);
    lemma_opt_item_ok(p.response_topic, |t: Seq<char>| PropertyItem::ResponseTopic(t), c);
    lemma_opt_item_ok(p.correlation_data, |d: Seq<u8>| PropertyItem::CorrelationData(d), c);
    lemma_user_items_ok(p.user_properties, c);
    lemma_items_ok_concat(a1, a2, c);
    lemma_items_ok_concat(a1 + a2, a3, c);
    lemma_items_ok_concat(a1 + a2 + a3, a4, c);
    lemma_items_ok_concat(a1 + a2 + a3 + a4, a5, c);
    lemma_items_ok_concat(a1 + a2 + a3 + a4 + a5, a6, c);
    lemma_items_ok_concat(a1 + a2 + a3 + a4 + a5 + a6, a7, c);
}

/// A will property section holding fitting properties reads back as the same
/// properties, when the section is not empty and its length fits.
#[verifier::spinoff_prover]
pub proof fn lemma_will_properties_roundtrip(p: WillPropertiesView, rest: Seq<u8>)
    requires
        will_properties_fit(p),
        0 < will_properties_bytes(p).len() <= MAX_REMAINING_LENGTH,
    ensures
        parse_will_properties(
            remaining_length_bytes(will_properties_bytes(p).len()) + will_properties_bytes(p)
                + rest,
        ) == Step::Done(Some(p), rest),
{
    lemma_will_items_bytes(p);
    lemma_will_items_ok(p);
    lemma_will_items_from(p);
    lemma_property_section_roundtrip(will_items(p), PropertyScope::Will, rest);
}

/// Reading a will property sets only the field of its own kind: a user property
/// is appended to the user properties, any other property sets its field to its
/// value, and every other field is left as it was.
#[verifier::spinoff_prover]
pub proof fn lemma_will_property_frame(p: WillPropertiesView, item: PropertyItem)
    ensures
        ({
            let q = apply_will_property(p, item);
            &&& q.delay_interval == (match item {
                PropertyItem::WillDelayInterval(v) => Some(v),
                _ => p.delay_interval,
            })
            &&& q.payload_format_indicator == (match item {
                PropertyItem::PayloadFormatIndicator(v) => Some(v),
                _ => p.payload_format_indicator,
            })
            &&& q.message_expiry_interval == (match item {
                PropertyItem::MessageExpiryInterval(v) => Some(v),
                _ => p.message_expiry_interval,
            })
            &&& q.content_type == (match item {
                PropertyItem::ContentType(t) => Some(t),
                _ => p.content_type,
            })
            &&& q.response_topic == (match item {
                PropertyItem::ResponseTopic(t) => Some(t),
                _ => p.response_topic,
            })
            &&& q.correlation_data == (match item {
                PropertyItem::CorrelationData(d) => Some(d),
                _ => p.correlation_data,
            })
            &&& q.user_properties == (match item {
                PropertyItem::UserProperty(k, v) => p.user_properties.push((k, v)),
                _ => p.user_properties,
            })
        }),
{
}

/// Reading a connection property sets only the field of its own kind: a user
/// property is appended to the user properties, any other property sets its
/// field to its value, and every other field is left as it was.
#[verifier::spinoff_prover]
pub proof fn lemma_connect_property_frame(p: ConnectPropertiesView, item: PropertyItem)
    ensures
        ({
            let q = apply_connect_property(p, item);
            &&& q.session_expiry_interval == (match item {
                PropertyItem::SessionExpiryInterval(v) => Some(v),
                _ => p.session_expiry_interval,
            })
            &&& q.receive_maximum == (match item {
                PropertyItem::ReceiveMaximum(v) => Some(v),
                _ => p.receive_maximum,
            })
            &&& q.max_packet_size == (match item {
                PropertyItem::MaximumPacketSize(v) => Some(v),
                _ => p.max_packet_size,
            })
            &&& q.topic_alias_max == (match item {
                PropertyItem::TopicAliasMaximum(v) => Some(v),
                _ => p.topic_alias_max,
            })
            &&& q.request_response_info == (match item {
                PropertyItem::RequestResponseInformation(v) => Some(v),
                _ => p.request_response_info,
            })
            &&& q.request_problem_info == (match item {
                PropertyItem::RequestProblemInformation(v) => Some(v),
                _ => p.request_problem_info,
            })
            &&& q.authentication_method == (match item {
                PropertyItem::AuthenticationMethod(t) => Some(t),
                _ => p.authentication_method,
            })
            &&& q.authentication_data == (match item {
                PropertyItem::AuthenticationData(d) => Some(d),
                _ => p.authentication_data,
            })
            &&& q.user_properties == (match item {
                PropertyItem::UserProperty(k, v) => p.user_properties.push((k, v)),
                _ => p.user_properties,
            })
        }),
{
}

/// Two will properties of different kinds read the same in either order.
#[verifier::spinoff_prover]
pub proof fn lemma_will_properties_commute(p: WillPropertiesView, x: PropertyItem, y: PropertyItem)
    requires
        item_id(x) != item_id(y),
    ensures
        apply_will_property(apply_will_property(p, x), y) == apply_will_property(
            apply_will_property(p, y),
            x,
        ),
{
    lemma_will_property_frame(p, x);
    lemma_will_property_frame(p, y);
    lemma_will_property_frame(apply_will_property(p, x), y);
    lemma_will_property_frame(apply_will_property(p, y), x);
}

/// Two connection properties of different kinds read the same in either order.
#[verifier::spinoff_prover]
pub proof fn lemma_connect_properties_commute(
    p: ConnectPropertiesView,
    x: PropertyItem,
    y: PropertyItem,
)
    requires
        item_id(x) != item_id(y),
    ensures
        apply_connect_property(apply_connect_property(p, x), y) == apply_connect_property(
            apply_connect_property(p, y),
            x,
        ),
{
    lemma_connect_property_frame(p, x);
    lemma_connect_property_frame(p, y);
    lemma_connect_property_frame(apply_connect_property(p, x), y);
    lemma_connect_property_frame(apply_connect_property(p, y), x);
}

/// A will property section of two accepted, fitting properties of different
/// kinds reads as the same will properties whichever comes first.
#[verifier::spinoff_prover]
pub proof fn lemma_will_section_order(x: PropertyItem, y: PropertyItem, rest: Seq<u8>)
    requires
        item_id(x) != item_id(y),
        items_ok(seq![x, y], PropertyScope::Will),
        item_bytes(x).len() + item_bytes(y).len() <= MAX_REMAINING_LENGTH,
    ensures
        ({
            let n = item_bytes(x).len() + item_bytes(y).len();
            parse_will_properties(remaining_length_bytes(n) + (item_bytes(x) + item_bytes(y))
                + rest) == parse_will_properties(remaining_length_bytes(n) + (item_bytes(y)
                + item_bytes(x)) + rest)
        }),
        parse_will_properties(
            remaining_length_bytes(item_bytes(x).len() + item_bytes(y).len()) + (item_bytes(x)
                + item_bytes(y)) + rest,
        ) is Done,
{
    lemma_two_items(x, y);
    lemma_two_items(y, x);
    assert(items_ok(seq![y, x], PropertyScope::Will)) by {
        assert(seq![x, y][0] == x && seq![x, y][1] == y);
    }
    lemma_property_section_roundtrip(seq![x, y], PropertyScope::Will, rest);
    lemma_property_section_roundtrip(seq![y, x], PropertyScope::Will, rest);
    let e = empty_will_properties();
    lemma_will_fold_two(e, x, y);
    lemma_will_fold_two(e, y, x);
    lemma_will_properties_commute(e, x, y);
}

/// A connection property section of two accepted, fitting properties of
/// different kinds reads as the same connection properties whichever comes first.
#[verifier::spinoff_prover]
pub proof fn lemma_connect_section_order(x: PropertyItem, y: PropertyItem, rest: Seq<u8>)
    requires
        item_id(x) != item_id(y),
        items_ok(seq![x, y], PropertyScope::Connect),
        item_bytes(x).len() + item_bytes(y).len() <= MAX_REMAINING_LENGTH,
    ensures
        ({
            let n = item_bytes(x).len() + item_bytes(y).len();
            parse_connect_properties(remaining_length_bytes(n) + (item_bytes(x) + item_bytes(y))
                + rest) == parse_connect_properties(remaining_length_bytes(n) + (item_bytes(y)
                + item_bytes(x)) + rest)
        }),
        parse_connect_properties(
            remaining_length_bytes(item_bytes(x).len() + item_bytes(y).len()) + (item_bytes(x)
                + item_bytes(y)) + rest,
        ) is Done,
{
    lemma_two_items(x, y);
    lemma_two_items(y, x);
    assert(items_ok(seq![y, x], PropertyScope::Connect)) by {
        assert(seq![x, y][0] == x && seq![x, y][1] == y);
    }
    lemma_property_section_roundtrip(seq![x, y], PropertyScope::Connect, rest);
    lemma_property_section_roundtrip(seq![y, x], PropertyScope::Connect, rest);
    let e = empty_connect_properties();
    lemma_connect_fold_two(e, x, y);
    lemma_connect_fold_two(e, y, x);
    lemma_connect_properties_commute(e, x, y);
}

/// The bytes of a list of two properties, and that it is not empty.
#[verifier::spinoff_prover]
proof fn lemma_two_items(x: PropertyItem, y: PropertyItem)
    ensures
        items_bytes(seq![x, y]) == item_bytes(x) + item_bytes(y),
        item_bytes(x).len() > 0,
{
    lemma_items_bytes_concat(seq![x], seq![y]);
    lemma_items_bytes_single(x);
    lemma_items_bytes_single(y);
    assert(seq![x] + seq![y] =~= seq![x, y]);
}

/// Applying a list of two will properties applies the first, then the second.
#[verifier::spinoff_prover]
proof fn lemma_will_fold_two(acc: WillPropertiesView, x: PropertyItem, y: PropertyItem)
    ensures
        will_properties_fold(acc, seq![x, y]) == apply_will_property(
            apply_will_property(acc, x),
            y,
        ),
{
    assert(seq![x, y].drop_last() =~= seq![x]);
    assert(seq![x].drop_last() =~= Seq::<PropertyItem>::empty());
    assert(will_properties_fold(acc, Seq::<PropertyItem>::empty()) == acc);
    assert(will_properties_fold(acc, seq![x]) == apply_will_property(acc, x));
}

/// Applying a list of two connection properties applies the first, then the
/// second.
#[verifier::spinoff_prover]
proof fn lemma_connect_fold_two(acc: ConnectPropertiesView, x: PropertyItem, y: PropertyItem)
    ensures
        connect_properties_fold(acc, seq![x, y]) == apply_connect_property(
            apply_connect_property(acc, x),
            y,
        ),
{
    assert(seq![x, y].drop_last() =~= seq![x]);
    assert(seq![x].drop_last() =~= Seq::<PropertyItem>::empty());
    assert(connect_properties_fold(acc, Seq::<PropertyItem>::empty()) == acc);
    assert(connect_properties_fold(acc, seq![x]) == apply_connect_property(acc, x));
}

} // verus!
