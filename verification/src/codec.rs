//! The building blocks of the MQTT wire format: errors, protocol and QoS values,
//! property identifiers, the variable-length "remaining length" integer, and
//! length-prefixed binary data and UTF-8 strings.
use crate::buf::{
    be_u16, bytes_as_slice, bytes_contents, bytes_get_u16, bytes_len, bytes_mut_contents,
    bytes_mut_extend_from_slice, bytes_mut_put_u16, bytes_mut_put_u8, bytes_split_to, u16_bytes,
};
use bytes::{Bytes, BytesMut};
use vstd::prelude::*;
use vstd::slice::slice_to_vec;
use vstd::utf8::{decode_utf8, encode_utf8, valid_utf8};

verus! {

/// Everything that can go wrong while reading or writing a packet.
#[derive(Debug, Clone, Copy, PartialEq, Eq)]
pub enum Error {
    /// The protocol name is not `MQTT`.
    InvalidProtocol,
    /// The protocol level is not 5.
    InvalidProtocolLevel(u8),
    /// The connect flags announce will options without a will.
    IncorrectPacketFormat,
    /// The packet type in the fixed header is not a known MQTT packet type.
    InvalidPacketType(u8),
    /// The packet type is a valid MQTT packet type that this library does not decode.
    UnsupportedPacketType(u8),
    /// A property identifier is unknown or not allowed where it stands.
    InvalidPropertyType(u8),
    /// A QoS value other than 0, 1 or 2.
    InvalidQoS(u8),
    /// Fewer than two bytes where a length prefix was expected.
    MalformedPacket,
    /// A remaining length that goes on past four bytes.
    MalformedRemainingLength,
    /// A length prefix that claims more bytes than are left.
    BoundaryCrossed(usize),
    /// A string that is not valid UTF-8.
    TopicNotUtf8,
    /// A remaining length above the largest that four bytes can encode.
    PayloadTooLong,
    /// A packet that needs a body has none.
    PayloadRequired,
    /// A packet larger than the size the caller accepts.
    PayloadSizeLimitExceeded(usize),
    /// The stream ends before the packet does; the payload is how many more bytes
    /// are needed at least.
    InsufficientBytes(usize),
}

/// The protocol and its level.
#[derive(Debug, Clone, Copy, PartialEq, Eq)]
pub enum Protocol {
    MQTT(u8),
}

/// Quality of service.
#[derive(Debug, Clone, Copy, PartialEq, Eq)]
pub enum QoS {
    AtMostOnce,
    AtLeastOnce,
    ExactlyOnce,
}

/// The number that stands for a QoS on the wire.
pub open spec fn qos_number(q: QoS) -> u8 {
    match q {
        QoS::AtMostOnce => 0,
        QoS::AtLeastOnce => 1,
        QoS::ExactlyOnce => 2,
    }
}

/// The QoS that `num` stands for.
pub fn qos(num: u8) -> (r: Result<QoS, Error>)
    ensures
        match r {
            Ok(q) => qos_number(q) == num,
            Err(e) => num > 2 && e == Error::InvalidQoS(num),
        },
{
    match num {
        0 => Ok(QoS::AtMostOnce),
        1 => Ok(QoS::AtLeastOnce),
        2 => Ok(QoS::ExactlyOnce),
        q => Err(Error::InvalidQoS(q)),
    }
}

/// Each QoS has its own wire number, at most 2, so that a QoS written as its
/// number reads back as itself.
pub proof fn lemma_qos_number_roundtrip(q: QoS)
    ensures
        qos_number(q) <= 2,
        forall|p: QoS| #[trigger] qos_number(p) == qos_number(q) ==> p == q,
{
}

/// The number that stands for `q` on the wire.
pub fn qos_value(q: QoS) -> (v: u8)
    ensures
        v == qos_number(q),
{
    match q {
        QoS::AtMostOnce => 0,
        QoS::AtLeastOnce => 1,
        QoS::ExactlyOnce => 2,
    }
}

/// The kinds of MQTT 5 properties.
#[derive(Debug, Clone, Copy, PartialEq, Eq)]
pub enum PropertyType {
    PayloadFormatIndicator,
    MessageExpiryInterval,
    ContentType,
    ResponseTopic,
    CorrelationData,
    SubscriptionIdentifier,
    SessionExpiryInterval,
    AssignedClientIdentifier,
    ServerKeepAlive,
    AuthenticationMethod,
    AuthenticationData,
    RequestProblemInformation,
    WillDelayInterval,
    RequestResponseInformation,
    ResponseInformation,
    ServerReference,
    ReasonString,
    ReceiveMaximum,
    TopicAliasMaximum,
    TopicAlias,
    MaximumQoS,
    RetainAvailable,
    UserProperty,
    MaximumPacketSize,
    WildcardSubscriptionAvailable,
    SubscriptionIdentifierAvailable,
    SharedSubscriptionAvailable,
}

/// The identifier byte of a property kind.
pub open spec fn property_number(p: PropertyType) -> u8 {
    match p {
        PropertyType::PayloadFormatIndicator => 1,
        PropertyType::MessageExpiryInterval => 2,
        PropertyType::ContentType => 3,
        PropertyType::ResponseTopic => 8,
        PropertyType::CorrelationData => 9,
        PropertyType::SubscriptionIdentifier => 11,
        PropertyType::SessionExpiryInterval => 17,
        PropertyType::AssignedClientIdentifier => 18,
        PropertyType::ServerKeepAlive => 19,
        PropertyType::AuthenticationMethod => 21,
        PropertyType::AuthenticationData => 22,
        PropertyType::RequestProblemInformation => 23,
        PropertyType::WillDelayInterval => 24,
        PropertyType::RequestResponseInformation => 25,
        PropertyType::ResponseInformation => 26,
        PropertyType::ServerReference => 28,
        PropertyType::ReasonString => 31,
        PropertyType::ReceiveMaximum => 33,
        PropertyType::TopicAliasMaximum => 34,
        PropertyType::TopicAlias => 35,
        PropertyType::MaximumQoS => 36,
        PropertyType::RetainAvailable => 37,
        PropertyType::UserProperty => 38,
        PropertyType::MaximumPacketSize => 39,
        PropertyType::WildcardSubscriptionAvailable => 40,
        PropertyType::SubscriptionIdentifierAvailable => 41,
        PropertyType::SharedSubscriptionAvailable => 42,
    }
}

/// Whether some property kind has the identifier `num`.
pub open spec fn is_property_number(num: u8) -> bool {
    exists|p: PropertyType| property_number(p) == num
}

/// The property kind with identifier `num`.
pub fn property(num: u8) -> (r: Result<PropertyType, Error>)
    ensures
        match r {
            Ok(p) => property_number(p) == num,
            Err(e) => !is_property_number(num) && e == Error::InvalidPropertyType(num),
        },
{
    let property = match num {
        1 => PropertyType::PayloadFormatIndicator,
        2 => PropertyType::MessageExpiryInterval,
        3 => PropertyType::ContentType,
        8 => PropertyType::ResponseTopic,
        9 => PropertyType::CorrelationData,
        11 => PropertyType::SubscriptionIdentifier,
        17 => PropertyType::SessionExpiryInterval,
        18 => PropertyType::AssignedClientIdentifier,
        19 => PropertyType::ServerKeepAlive,
        21 => PropertyType::AuthenticationMethod,
        22 => PropertyType::AuthenticationData,
        23 => PropertyType::RequestProblemInformation,
        24 => PropertyType::WillDelayInterval,
        25 => PropertyType::RequestResponseInformation,
        26 => PropertyType::ResponseInformation,
        28 => PropertyType::ServerReference,
        31 => PropertyType::ReasonString,
        33 => PropertyType::ReceiveMaximum,
        34 => PropertyType::TopicAliasMaximum,
        35 => PropertyType::TopicAlias,
        36 => PropertyType::MaximumQoS,
        37 => PropertyType::RetainAvailable,
        38 => PropertyType::UserProperty,
        39 => PropertyType::MaximumPacketSize,
        40 => PropertyType::WildcardSubscriptionAvailable,
        41 => PropertyType::SubscriptionIdentifierAvailable,
        42 => PropertyType::SharedSubscriptionAvailable,
        num => {
            assert forall|p: PropertyType| property_number(p) != num by {}
            return Err(Error::InvalidPropertyType(num));
        },
    };
    Ok(property)
}

/// Each property kind has its own identifier, so that a kind written as its
/// identifier reads back as itself.
pub proof fn lemma_property_number_roundtrip(p: PropertyType)
    ensures
        is_property_number(property_number(p)),
        forall|x: PropertyType| #[trigger] property_number(x) == property_number(p) ==> x == p,
{
}

/// The identifier byte of a property kind.
pub fn property_id(p: PropertyType) -> (id: u8)
    ensures
        id == property_number(p),
{
    match p {
        PropertyType::PayloadFormatIndicator => 1,
        PropertyType::MessageExpiryInterval => 2,
        PropertyType::ContentType => 3,
        PropertyType::ResponseTopic => 8,
        PropertyType::CorrelationData => 9,
        PropertyType::SubscriptionIdentifier => 11,
        PropertyType::SessionExpiryInterval => 17,
        PropertyType::AssignedClientIdentifier => 18,
        PropertyType::ServerKeepAlive => 19,
        PropertyType::AuthenticationMethod => 21,
        PropertyType::AuthenticationData => 22,
        PropertyType::RequestProblemInformation => 23,
        PropertyType::WillDelayInterval => 24,
        PropertyType::RequestResponseInformation => 25,
        PropertyType::ResponseInformation => 26,
        PropertyType::ServerReference => 28,
        PropertyType::ReasonString => 31,
        PropertyType::ReceiveMaximum => 33,
        PropertyType::TopicAliasMaximum => 34,
        PropertyType::TopicAlias => 35,
        PropertyType::MaximumQoS => 36,
        PropertyType::RetainAvailable => 37,
        PropertyType::UserProperty => 38,
        PropertyType::MaximumPacketSize => 39,
        PropertyType::WildcardSubscriptionAvailable => 40,
        PropertyType::SubscriptionIdentifierAvailable => 41,
        PropertyType::SharedSubscriptionAvailable => 42,
    }
}

/// What reading a value off the front of a byte sequence comes to.
pub enum Step<T> {
    /// The value read and the bytes left after it.
    Done(T, Seq<u8>),
    /// The bytes are rejected with this error.
    Fail(Error),
    /// The bytes end where the reader needs more of them; the reader stops by
    /// panicking there, so callers must rule this case out.
    Exhausted,
}

/// The largest remaining length that four bytes can encode.
pub const MAX_REMAINING_LENGTH: usize = 268_435_455;

/// The variable-length encoding of a remaining length: seven bits per byte, least
/// significant group first, the top bit set on every byte but the last.
pub open spec fn remaining_length_bytes(n: nat) -> Seq<u8>
    decreases n,
{
    if n < 128 {
        seq![n as u8]
    } else {
        seq![(n % 128 + 128) as u8] + remaining_length_bytes(n / 128)
    }
}

/// How many bytes the encoding of a remaining length takes.
pub open spec fn remaining_length_size(n: nat) -> nat {
    if n < 128 {
        1
    } else if n < 16384 {
        2
    } else if n < 2_097_152 {
        3
    } else {
        4
    }
}

/// Reads a remaining length off the front of `s`, having already read `k` bytes
/// of it. The result is the number of bytes it takes and its value.
pub open spec fn decode_remaining_length_from(s: Seq<u8>, k: nat) -> Result<(nat, nat), Error>
    decreases 4 - k,
{
    if s.len() == 0 {
        Err(Error::InsufficientBytes(1))
    } else if s[0] < 128 {
        Ok((1, s[0] as nat))
    } else if k >= 3 {
        Err(Error::MalformedRemainingLength)
    } else {
        match decode_remaining_length_from(s.drop_first(), k + 1) {
            Ok((n, v)) => Ok((n + 1, ((s[0] - 128) + 128 * v) as nat)),
            Err(e) => Err(e),
        }
    }
}

/// Reads a remaining length off the front of `s`: the number of bytes it takes
/// and its value.
pub open spec fn decode_remaining_length(s: Seq<u8>) -> Result<(nat, nat), Error> {
    decode_remaining_length_from(s, 0)
}

/// The encoding of a remaining length is as long as `remaining_length_size` says.
pub proof fn lemma_remaining_length_size(n: nat)
    requires
        n <= MAX_REMAINING_LENGTH,
    ensures
        remaining_length_bytes(n).len() == remaining_length_size(n),
        1 <= remaining_length_size(n) <= 4,
{
    reveal_with_fuel(remaining_length_bytes, 5);
}

/// The decoded length never takes more bytes than there are, and at most four.
pub proof fn lemma_decode_remaining_length_bounds(s: Seq<u8>, k: nat)
    requires
        k <= 3,
    ensures
        decode_remaining_length_from(s, k) matches Ok((n, v)) ==> 1 <= n <= s.len() && n
            <= 4 - k && v < pow128(n),
    decreases 4 - k,
{
    reveal_with_fuel(pow128, 2);
    if s.len() > 0 && s[0] >= 128 && k < 3 {
        lemma_decode_remaining_length_bounds(s.drop_first(), k + 1);
        if let Ok((n, v)) = decode_remaining_length_from(s.drop_first(), k + 1) {
            assert(pow128(n + 1) == 128 * pow128(n));
            let b = s[0] - 128;
            assert(b + 128 * v < 128 * pow128(n)) by (nonlinear_arith)
                requires
                    0 <= b < 128,
                    v < pow128(n),
            ;
        }
    }
}

/// 128 to the power `n`.
pub open spec fn pow128(n: nat) -> nat
    decreases n,
{
    if n == 0 {
        1
    } else {
        128 * pow128((n - 1) as nat)
    }
}

/// Reading an encoded remaining length gives back the value and its size, whatever
/// follows it.
pub proof fn lemma_remaining_length_roundtrip(n: nat, rest: Seq<u8>, k: nat)
    requires
        k <= 3,
        n < pow128((4 - k) as nat),
    ensures
        decode_remaining_length_from(remaining_length_bytes(n) + rest, k) == Ok::<(nat, nat), Error>(
            (remaining_length_bytes(n).len(), n),
        ),
    decreases n,
{
    let s = remaining_length_bytes(n) + rest;
    if n < 128 {
        assert(s[0] == n as u8);
    } else {
        let tail = remaining_length_bytes(n / 128);
        assert(s.drop_first() =~= tail + rest);
        reveal_with_fuel(pow128, 2);
        assert(pow128((4 - k) as nat) == 128 * pow128((4 - (k + 1)) as nat));
        lemma_remaining_length_roundtrip(n / 128, rest, k + 1);
    }
}

/// How many bytes the remaining length `remaining_len` takes on the wire: 1 to
/// 4, a length too long to encode counting as 4.
pub fn remaining_len_len(remaining_len: usize) -> (n: usize)
    ensures
        n == remaining_length_size(remaining_len as nat),
        remaining_len <= MAX_REMAINING_LENGTH ==> n == remaining_length_bytes(
            remaining_len as nat,
        ).len(),
{
    proof {
        if remaining_len <= MAX_REMAINING_LENGTH {
            lemma_remaining_length_size(remaining_len as nat);
        }
    }
    if remaining_len <= 127 {
        1
    } else if remaining_len <= 16383 {
        2
    } else if remaining_len <= 2_097_151 {
        3
    } else {
        4
    }
}

/// Appends the encoding of the remaining length `len` and returns how many bytes
/// it took. A length above `MAX_REMAINING_LENGTH` is refused and nothing is written.
pub fn write_remaining_length(stream: &mut BytesMut, len: usize) -> (r: Result<usize, Error>)
    requires
        len <= MAX_REMAINING_LENGTH ==> bytes_mut_contents(*old(stream)).len()
            + remaining_length_bytes(len as nat).len() <= isize::MAX,
    ensures
        len > MAX_REMAINING_LENGTH ==> r == Err::<usize, Error>(Error::PayloadTooLong)
            && bytes_mut_contents(*final(stream)) == bytes_mut_contents(*old(stream)),
        len <= MAX_REMAINING_LENGTH ==> remaining_length_bytes(len as nat).len() <= 4,
        len <= MAX_REMAINING_LENGTH ==> r == Ok::<usize, Error>(
            remaining_length_bytes(len as nat).len() as usize,
        ) && bytes_mut_contents(*final(stream)) == bytes_mut_contents(*old(stream))
            + remaining_length_bytes(len as nat),
{
    if len > MAX_REMAINING_LENGTH {
        return Err(Error::PayloadTooLong);
    }
    proof {
        lemma_remaining_length_size(len as nat);
    }
    let ghost start = bytes_mut_contents(*stream);
    let mut done = false;
    let mut x = len;
    let mut count: usize = 0;
    while !done
        invariant
            len <= MAX_REMAINING_LENGTH,
            x <= len,
            start.len() + remaining_length_size(len as nat) <= isize::MAX,
            bytes_mut_contents(*stream).len() == start.len() + count,
            done ==> bytes_mut_contents(*stream) == start + remaining_length_bytes(len as nat),
            !done ==> start + remaining_length_bytes(len as nat) == bytes_mut_contents(*stream)
                + remaining_length_bytes(x as nat),
            !done ==> count + remaining_length_size(x as nat) == remaining_length_size(
                len as nat,
            ),
            remaining_length_size(len as nat) <= 4,
            done ==> count == remaining_length_size(len as nat),
        decreases (if done { 0 } else { x + 1 }),
    {
        let ghost before = bytes_mut_contents(*stream);
        let ghost xo = x;
        proof {
            lemma_remaining_length_size(x as nat);
        }
        let mut byte = (x % 128) as u8;
        x = x / 128;
        if x > 0 {
            assert(byte < 128);
            assert(byte | 128 == byte + 128) by (bit_vector)
                requires
                    byte < 128,
            ;
            byte = byte | 128;
        }
        bytes_mut_put_u8(stream, byte);
        count = count + 1;
        done = x == 0;
        proof {
            if xo >= 128 {
                assert(remaining_length_bytes(xo as nat) == seq![byte] + remaining_length_bytes(
                    x as nat,
                ));
                assert(bytes_mut_contents(*stream) + remaining_length_bytes(x as nat)
                    =~= before + remaining_length_bytes(xo as nat));
            } else {
                assert(remaining_length_bytes(xo as nat) == seq![byte]);
                assert(bytes_mut_contents(*stream) =~= before + remaining_length_bytes(
                    xo as nat,
                ));
            }
        }
    }
    Ok(count)
}

/// Reads a remaining length off the front of `stream`: how many bytes it takes and
/// its value.
pub fn length(stream: &[u8]) -> (r: Result<(usize, usize), Error>)
    ensures
        match decode_remaining_length(stream@) {
            Ok((n, v)) => r == Ok::<(usize, usize), Error>((n as usize, v as usize)),
            Err(e) => r == Err::<(usize, usize), Error>(e),
        },
        r matches Ok((n, v)) ==> 1 <= n <= 4 && n <= stream@.len() && v <= MAX_REMAINING_LENGTH,
        decode_remaining_length(stream@) matches Ok((n, v)) ==> 1 <= n <= 4 && n <= stream@.len()
            && v <= MAX_REMAINING_LENGTH,
{
    let mut len: usize = 0;
    let mut len_len: usize = 0;
    let mut mult: usize = 1;
    proof {
        lemma_decode_remaining_length_bounds(stream@, 0);
        reveal_with_fuel(pow128, 5);
        assert(stream@.skip(0) =~= stream@);
    }
    while len_len < stream.len()
        invariant
            len_len <= 3,
            len_len <= stream@.len(),
            mult == pow128(len_len as nat),
            len < pow128(len_len as nat),
            decode_remaining_length(stream@) == match decode_remaining_length_from(
                stream@.skip(len_len as int),
                len_len as nat,
            ) {
                Ok((n, v)) => Ok::<(nat, nat), Error>(((n + len_len) as nat, (len + mult * v) as nat)),
                Err(e) => Err(e),
            },
        decreases stream@.len() - len_len,
    {
        let byte = stream[len_len];
        let ghost rest = stream@.skip(len_len as int);
        assert(rest[0] == byte);
        assert(rest.drop_first() =~= stream@.skip(len_len + 1));
        proof {
            reveal_with_fuel(pow128, 4);
        }
        let digit = (byte & 0x7f) as usize;
        assert(byte & 0x7f == byte % 128) by (bit_vector);
        assert(digit * mult < pow128((len_len + 1) as nat) - len) by (nonlinear_arith)
            requires
                digit < 128,
                mult == pow128(len_len as nat),
                pow128((len_len + 1) as nat) == 128 * pow128(len_len as nat),
                len < mult,
        ;
        let new_len = len + digit * mult;
        len_len = len_len + 1;
        if byte & 0x80 == 0 {
            assert(byte & 0x80 == 0 ==> byte < 128) by (bit_vector);
            assert(digit * mult == mult * digit) by (nonlinear_arith);
            return Ok((len_len, new_len));
        }
        assert(byte & 0x80 != 0 ==> byte >= 128) by (bit_vector);
        if len_len > 3 {
            return Err(Error::MalformedRemainingLength);
        }
        proof {
            let old_len = (len_len - 1) as nat;
            lemma_decode_remaining_length_bounds(stream@.skip(len_len as int), len_len as nat);
            match decode_remaining_length_from(stream@.skip(len_len as int), len_len as nat) {
                Ok((n, v)) => {
                    assert(len + mult * ((byte - 128) + 128 * v) == new_len + (128 * mult) * v)
                        by (nonlinear_arith)
                        requires
                            digit == byte - 128,
                            new_len == len + digit * mult,
                    ;
                },
                Err(e) => {},
            }
        }
        len = new_len;
        mult = mult * 128;
    }
    Err(Error::InsufficientBytes(1))
}

/// Reads a length-prefixed run of bytes off the front of `s`: a big-endian `u16`
/// length, then that many bytes.
pub open spec fn parse_mqtt_bytes(s: Seq<u8>) -> Step<Seq<u8>> {
    if s.len() < 2 {
        Step::Fail(Error::MalformedPacket)
    } else if be_u16(s) > s.len() - 2 {
        Step::Fail(Error::BoundaryCrossed(be_u16(s) as usize))
    } else {
        Step::Done(s.subrange(2, 2 + be_u16(s)), s.skip(2 + be_u16(s)))
    }
}

/// The text that `b` holds, where it is valid UTF-8. Kept opaque: proofs that
/// look into it say so with `reveal`.
#[verifier::opaque]
pub open spec fn utf8_text(b: Seq<u8>) -> Option<Seq<char>> {
    if valid_utf8(b) {
        Some(decode_utf8(b))
    } else {
        None
    }
}

/// Reads a length-prefixed UTF-8 string off the front of `s`.
pub open spec fn parse_mqtt_string(s: Seq<u8>) -> Step<Seq<char>> {
    match parse_mqtt_bytes(s) {
        Step::Done(b, rest) => match utf8_text(b) {
            Some(t) => Step::Done(t, rest),
            None => Step::Fail(Error::TopicNotUtf8),
        },
        Step::Fail(e) => Step::Fail(e),
        Step::Exhausted => Step::Exhausted,
    }
}

/// The length-prefixed encoding of `b`: its length as a big-endian `u16` (cut to
/// 16 bits), then the bytes.
pub open spec fn mqtt_bytes_encoding(b: Seq<u8>) -> Seq<u8> {
    u16_bytes(b.len() as u16) + b
}

/// The length-prefixed encoding of a string: that of its UTF-8 bytes.
pub open spec fn mqtt_string_encoding(s: Seq<char>) -> Seq<u8> {
    mqtt_bytes_encoding(encode_utf8(s))
}

/// Reads a big-endian `u16`, refusing a stream shorter than two bytes.
pub fn read_u16(stream: &mut Bytes) -> (r: Result<u16, Error>)
    ensures
        bytes_contents(*old(stream)).len() < 2 ==> r == Err::<u16, Error>(Error::MalformedPacket),
        bytes_contents(*old(stream)).len() >= 2 ==> r == Ok::<u16, Error>(
            be_u16(bytes_contents(*old(stream))),
        ) && bytes_contents(*final(stream)) == bytes_contents(*old(stream)).skip(2),
{
    if bytes_len(stream) < 2 {
        return Err(Error::MalformedPacket);
    }
    Ok(bytes_get_u16(stream))
}

/// Reads length-prefixed bytes off the front of `stream`.
pub fn read_mqtt_bytes(stream: &mut Bytes) -> (r: Result<Bytes, Error>)
    ensures
        match parse_mqtt_bytes(bytes_contents(*old(stream))) {
            Step::Done(b, rest) => r matches Ok(x) && bytes_contents(x) == b && bytes_contents(
                *final(stream),
            ) == rest,
            Step::Fail(e) => r == Err::<Bytes, Error>(e),
            Step::Exhausted => false,
        },
        r matches Ok(x) ==> bytes_contents(x).len() < 65536,
{
    let ghost s = bytes_contents(*stream);
    let len = read_u16(stream)? as usize;
    // A length that runs past the bytes that are left is refused rather than read,
    // so that a string or a binary value never reaches past the packet that holds it.
    if len > bytes_len(stream) {
        return Err(Error::BoundaryCrossed(len));
    }
    let r = bytes_split_to(stream, len);
    assert(bytes_contents(r) =~= s.subrange(2, 2 + be_u16(s)));
    assert(bytes_contents(*stream) =~= s.skip(2 + be_u16(s)));
    Ok(r)
}

/// `String::from_utf8`: the string whose UTF-8 encoding is `v`, or `None` where
/// `v` is not valid UTF-8 (where std returns its error).
#[verifier::external_body]
pub(crate) fn string_from_utf8(v: Vec<u8>) -> (r: Option<String>)
    ensures
        r is Some <==> valid_utf8(v@),
        r matches Some(s) ==> s@ == decode_utf8(v@),
{
    String::from_utf8(v).ok()
}

/// Reads a length-prefixed UTF-8 string off the front of `stream`.
pub fn read_mqtt_string(stream: &mut Bytes) -> (r: Result<String, Error>)
    ensures
        match parse_mqtt_string(bytes_contents(*old(stream))) {
            Step::Done(t, rest) => r matches Ok(x) && x@ == t && bytes_contents(*final(stream))
                == rest,
            Step::Fail(e) => r == Err::<String, Error>(e),
            Step::Exhausted => false,
        },
        r matches Ok(x) ==> encode_utf8(x@).len() < 65536,
{
    let s = read_mqtt_bytes(stream)?;
    proof {
        reveal(utf8_text);
    }
    match string_from_utf8(slice_to_vec(bytes_as_slice(&s))) {
        Some(v) => {
            proof {
                vstd::utf8::decode_utf8_encode_utf8(bytes_contents(s));
            }
            Ok(v)
        },
        None => Err(Error::TopicNotUtf8),
    }
}

/// Appends `bytes` with its length prefix. The prefix holds the length cut to 16
/// bits.
pub fn write_mqtt_bytes(stream: &mut BytesMut, bytes: &[u8])
    requires
        bytes_mut_contents(*old(stream)).len() + 2 + bytes@.len() <= isize::MAX,
    ensures
        bytes_mut_contents(*final(stream)) == bytes_mut_contents(*old(stream))
            + mqtt_bytes_encoding(bytes@),
{
    bytes_mut_put_u16(stream, bytes.len() as u16);
    bytes_mut_extend_from_slice(stream, bytes);
    assert(bytes_mut_contents(*stream) =~= bytes_mut_contents(*old(stream)) + mqtt_bytes_encoding(
        bytes@,
    ));
}

/// Appends the UTF-8 bytes of `string` with their length prefix.
pub fn write_mqtt_string(stream: &mut BytesMut, string: &str)
    requires
        bytes_mut_contents(*old(stream)).len() + 2 + encode_utf8(string@).len() <= isize::MAX,
    ensures
        bytes_mut_contents(*final(stream)) == bytes_mut_contents(*old(stream))
            + mqtt_string_encoding(string@),
{
    write_mqtt_bytes(stream, string.as_bytes());
}

} // verus!
