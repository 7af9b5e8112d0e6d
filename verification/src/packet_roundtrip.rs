//! Reading back a written CONNECT packet: what `Connect::write` puts in an empty
//! buffer, `mqtt_read` reads back as the same packet.
use crate::codec::{
    lemma_qos_number_roundtrip, lemma_remaining_length_roundtrip, lemma_remaining_length_size, Error, mqtt_bytes_encoding, mqtt_string_encoding,
    parse_mqtt_bytes, parse_mqtt_string, pow128,
    qos_number, remaining_length_bytes, Protocol, QoS, Step, MAX_REMAINING_LENGTH,
};
use crate::buf::{be_u16, u16_bytes};
use crate::connect::{
    connect_payload_bytes, lemma_mqtt_name_bytes, mqtt_name, parse_connect,
    parse_connect_after_level, clean_session_flag, connect_body, connect_flags, connect_len, lemma_connect_len,
    connect_written, flags_index, last_will_flags, login_bytes, login_flags,
    last_will_bytes, will_properties_section, opt_last_will_bytes, opt_login_bytes, parse_last_will, parse_login,
    qos_from_number,
    ConnectView, LastWillView, LoginView,
};
use crate::connect_properties::{
    connect_properties_bytes, parse_connect_properties, ConnectPropertiesView,
};
use crate::packet::{check_spec, read_packet_spec, FixedHeader};
use crate::roundtrip::{lemma_mqtt_bytes_roundtrip, lemma_mqtt_string_roundtrip, lemma_u16_roundtrip};
use crate::section_roundtrip::{
    connect_properties_fit, lemma_connect_properties_roundtrip, lemma_will_properties_roundtrip,
    will_properties_fit,
};
use crate::will_properties::{parse_will_properties, will_properties_bytes};
use vstd::prelude::*;
use vstd::utf8::encode_utf8;

verus! {

/// How the bits of a connect flags byte read back: clean session in bit 1, a
/// will in bit 2 with its QoS in bits 3 and 4 and retain in bit 5, a username in
/// bit 7 and a password in bit 6.
#[verifier::spinoff_prover]
proof fn lemma_flag_bits(cf: u8, wf: u8, q: u8, rf: u8, lf: u8, uf: u8, pf: u8)
    by (bit_vector)
    requires
        cf == 0 || cf == 2,
        q <= 2,
        rf == 0 || rf == 0x20,
        uf == 0 || uf == 0x80,
        pf == 0 || pf == 0x40,
        lf == uf | pf,
        wf == 0 || wf == (0u8 | (0x04u8 | (q << 3u8))) | rf,
    ensures
        (((cf | wf) | lf) & 0b10 != 0) == (cf != 0),
        (((cf | wf) | lf) & 0b100 != 0) == (wf != 0),
        wf == 0 ==> ((cf | wf) | lf) & 0b0011_1000 == 0,
        wf != 0 ==> (((cf | wf) | lf) & 0b11000) >> 3u8 == q,
        wf != 0 ==> (((cf | wf) | lf) & 0b0010_0000 != 0) == (rf != 0),
        (((cf | wf) | lf) & 0b1000_0000 != 0) == (uf != 0),
        (((cf | wf) | lf) & 0b0100_0000 != 0) == (pf != 0),
{
}

/// Or-ing in nothing leaves a byte as it is.
#[verifier::spinoff_prover]
proof fn lemma_or_zero(x: u8)
    by (bit_vector)
    ensures
        x | 0u8 == x,
{
}

/// Or-ing a byte into nothing gives the byte.
proof fn lemma_zero_or(x: u8)
    by (bit_vector)
    ensures
        0u8 | x == x,
{
}

/// The will bits that the connect flags carry.
spec fn will_bits(w: Option<LastWillView>) -> u8 {
    match w {
        Some(x) => last_will_flags(x),
        None => 0,
    }
}

/// The login bits that the connect flags carry.
spec fn login_bits(l: Option<LoginView>) -> u8 {
    match l {
        Some(x) => login_flags(x),
        None => 0,
    }
}

/// What each bit of the connect flags of `c` says.
#[verifier::spinoff_prover]
proof fn lemma_connect_flags(c: ConnectView)
    ensures
        (connect_flags(c) & 0b10 != 0) == c.clean_session,
        (connect_flags(c) & 0b100 != 0) == (c.last_will is Some),
        c.last_will is None ==> connect_flags(c) & 0b0011_1000 == 0,
        c.last_will matches Some(w) ==> (connect_flags(c) & 0b11000) >> 3u8 == qos_number(w.qos)
            && (connect_flags(c) & 0b0010_0000 != 0) == w.retain,
        (connect_flags(c) & 0b1000_0000 != 0) == (c.login matches Some(l) && l.username.len()
            > 0),
        (connect_flags(c) & 0b0100_0000 != 0) == (c.login matches Some(l) && l.password.len()
            > 0),
{
    let cf = clean_session_flag(c);
    let wf = will_bits(c.last_will);
    let lf = login_bits(c.login);
    let (q, rf) = match c.last_will {
        Some(w) => (qos_number(w.qos), if w.retain { 0x20u8 } else { 0u8 }),
        None => (0u8, 0u8),
    };
    let (uf, pf) = match c.login {
        Some(l) => (
            if l.username.len() > 0 { 0x80u8 } else { 0u8 },
            if l.password.len() > 0 { 0x40u8 } else { 0u8 },
        ),
        None => (0u8, 0u8),
    };
    lemma_or_zero(cf);
    lemma_or_zero(cf | wf);
    lemma_or_zero(0u8 | (0x04u8 | (q << 3u8)));
    assert(lf == uf | pf) by {
        lemma_or_zero(0u8);
    }
    assert(wf == 0 || wf == (0u8 | (0x04u8 | (q << 3u8))) | rf);
    assert((0u8 | (0x04u8 | (q << 3u8))) | rf != 0) by (bit_vector);
    assert(c.last_will is Some ==> wf != 0);
    assert(connect_flags(c) == (cf | wf) | lf);
    lemma_flag_bits(cf, wf, q, rf, lf, uf, pf);
}

/// Whether a will reads back as it is written: it has a non-empty property
/// section that fits in a remaining length, and each string and binary value in
/// it is shorter than 64 KiB.
pub open spec fn last_will_fits(w: LastWillView) -> bool {
    &&& w.properties matches Some(p) && will_properties_fit(p) && 0 < will_properties_bytes(
        p,
    ).len() <= MAX_REMAINING_LENGTH
    &&& encode_utf8(w.topic).len() < 65536
    &&& w.message.len() < 65536
}

/// Whether login credentials read back as they are written: one of them is not
/// empty, and each is shorter than 64 KiB.
pub open spec fn login_fits(l: LoginView) -> bool {
    &&& l.username.len() > 0 || l.password.len() > 0
    &&& encode_utf8(l.username).len() < 65536
    &&& encode_utf8(l.password).len() < 65536
}

/// The parts of a will read back as written.
#[verifier::spinoff_prover]
#[verifier::rlimit(50)]
proof fn lemma_will_parts_roundtrip(x: LastWillView, rest: Seq<u8>)
    requires
        last_will_fits(x),
    ensures
        parse_will_properties(last_will_bytes(x) + rest) == Step::Done(
            x.properties,
            mqtt_string_encoding(x.topic) + mqtt_bytes_encoding(x.message) + rest,
        ),
        parse_mqtt_string(mqtt_string_encoding(x.topic) + mqtt_bytes_encoding(x.message) + rest)
            == Step::Done(x.topic, mqtt_bytes_encoding(x.message) + rest),
        parse_mqtt_bytes(mqtt_bytes_encoding(x.message) + rest) == Step::Done(x.message, rest),
{
    let p = x.properties->0;
    let topic = mqtt_string_encoding(x.topic);
    let message = mqtt_bytes_encoding(x.message);
    let section = remaining_length_bytes(will_properties_bytes(p).len());
    let after = topic + message + rest;
    assert(last_will_bytes(x) + rest == section + will_properties_bytes(p) + after) by {
        assert(will_properties_section(x.properties) == section + will_properties_bytes(p));
        assert(last_will_bytes(x) + rest =~= section + will_properties_bytes(p) + after);
    }
    lemma_will_properties_roundtrip(p, after);
    assert(after =~= topic + (message + rest));
    lemma_mqtt_string_roundtrip(x.topic, message + rest);
    lemma_mqtt_bytes_roundtrip(x.message, rest);
}

/// A will, or its absence, reads back as written when the connect flags announce
/// it as it is.
#[verifier::spinoff_prover]
proof fn lemma_last_will_roundtrip(flags: u8, w: Option<LastWillView>, rest: Seq<u8>)
    requires
        (flags & 0b100 != 0) == (w is Some),
        w is None ==> flags & 0b0011_1000 == 0,
        w matches Some(x) ==> (flags & 0b11000) >> 3u8 == qos_number(x.qos) && (flags
            & 0b0010_0000 != 0) == x.retain && last_will_fits(x),
    ensures
        parse_last_will(flags, opt_last_will_bytes(w) + rest) == Step::Done(w, rest),
{
    match w {
        Some(x) => {
            lemma_will_parts_roundtrip(x, rest);
            lemma_qos_number_roundtrip(x.qos);
            assert(qos_from_number(qos_number(x.qos)) == x.qos);
        },
        None => {
            assert(opt_last_will_bytes(w) + rest =~= rest);
        },
    }
}

/// Login credentials, or their absence, read back as written when the connect
/// flags announce them as they are.
#[verifier::spinoff_prover]
proof fn lemma_login_roundtrip(flags: u8, l: Option<LoginView>, rest: Seq<u8>)
    requires
        (flags & 0b1000_0000 != 0) == (l matches Some(x) && x.username.len() > 0),
        (flags & 0b0100_0000 != 0) == (l matches Some(x) && x.password.len() > 0),
        l matches Some(x) ==> login_fits(x),
    ensures
        parse_login(flags, opt_login_bytes(l) + rest) == Step::Done(l, rest),
{
    match l {
        Some(x) => {
            let u = if x.username.len() > 0 {
                mqtt_string_encoding(x.username)
            } else {
                Seq::<u8>::empty()
            };
            let p = if x.password.len() > 0 {
                mqtt_string_encoding(x.password)
            } else {
                Seq::<u8>::empty()
            };
            assert(opt_login_bytes(l) + rest =~= u + (p + rest));
            if x.username.len() > 0 {
                lemma_mqtt_string_roundtrip(x.username, p + rest);
            } else {
                assert(u + (p + rest) =~= p + rest);
                assert(x.username =~= Seq::<char>::empty());
            }
            if x.password.len() > 0 {
                lemma_mqtt_string_roundtrip(x.password, rest);
            } else {
                assert(p + rest =~= rest);
                assert(x.password =~= Seq::<char>::empty());
            }
        },
        None => {
            assert(opt_login_bytes(l) + rest =~= rest);
        },
    }
}

/// What reading past the protocol level gives, from what reading each part gives.
#[verifier::spinoff_prover]
proof fn lemma_after_level_steps(
    f: u8,
    s: Seq<u8>,
    properties: Option<ConnectPropertiesView>,
    s3: Seq<u8>,
    client_id: Seq<char>,
    s4: Seq<u8>,
    last_will: Option<LastWillView>,
    s5: Seq<u8>,
    login: Option<LoginView>,
    s6: Seq<u8>,
)
    requires
        s.len() >= 2,
        parse_connect_properties(s.skip(2)) == Step::Done(properties, s3),
        parse_mqtt_string(s3) == Step::Done(client_id, s4),
        parse_last_will(f, s4) == Step::Done(last_will, s5),
        parse_login(f, s5) == Step::Done(login, s6),
    ensures
        parse_connect_after_level(f, s) == Step::Done(
            ConnectView {
                protocol: Protocol::MQTT(5),
                keep_alive: be_u16(s),
                properties,
                client_id,
                clean_session: f & 0b10 != 0,
                last_will,
                login,
            },
            s6,
        ),
{
}

/// Whether the payload of a CONNECT packet reads back as it is written: a
/// connection property section whose length fits, a client id shorter than 64
/// KiB, and a will (if any) and login (if any) that read back as written. (An
/// empty connection property section reads back as no properties.)
pub open spec fn connect_payload_fits(c: ConnectView) -> bool {
    &&& c.properties matches Some(p) && connect_properties_fit(p)
        && connect_properties_bytes(p).len() <= MAX_REMAINING_LENGTH
    &&& encode_utf8(c.client_id).len() < 65536
    &&& (c.last_will matches Some(w) ==> last_will_fits(w))
    &&& (c.login matches Some(l) ==> login_fits(l))
}

/// The connection properties that a written property section reads back as: an
/// empty section reads back as no properties.
pub open spec fn properties_read_back(p: Option<ConnectPropertiesView>) -> Option<
    ConnectPropertiesView,
> {
    match p {
        Some(x) => if connect_properties_bytes(x).len() == 0 {
            None
        } else {
            Some(x)
        },
        None => None,
    }
}

/// Whether a CONNECT packet reads back as it is written: it is of protocol level
/// 5, its payload reads back as written, its connection property section is not
/// empty, and its sizes fit a remaining length.
pub open spec fn connect_fits(c: ConnectView) -> bool {
    &&& c.protocol == Protocol::MQTT(5)
    &&& connect_payload_fits(c)
    &&& c.properties matches Some(p) && 0 < connect_properties_bytes(p).len()
    &&& connect_len(c) <= MAX_REMAINING_LENGTH
}

/// The property section, client id, will and login of a CONNECT packet read back
/// as written.
#[verifier::spinoff_prover]
proof fn lemma_connect_payload_roundtrip(c: ConnectView, rest: Seq<u8>)
    requires
        connect_payload_fits(c),
    ensures
        parse_connect_after_level(
            connect_flags(c),
            u16_bytes(c.keep_alive) + (connect_payload_bytes(c) + rest),
        ) == Step::Done(
            ConnectView {
                protocol: Protocol::MQTT(5),
                properties: properties_read_back(c.properties),
                ..c
            },
            rest,
        ),
{
    let f = connect_flags(c);
    let s = u16_bytes(c.keep_alive) + (connect_payload_bytes(c) + rest);
    let login = opt_login_bytes(c.login) + rest;
    let will = opt_last_will_bytes(c.last_will) + login;
    let cid = mqtt_string_encoding(c.client_id) + will;
    assert(s.len() >= 2 && be_u16(s) == c.keep_alive && s.skip(2) == connect_payload_bytes(c)
        + rest) by {
        lemma_u16_roundtrip(c.keep_alive, connect_payload_bytes(c) + rest);
    }
    assert(parse_connect_properties(s.skip(2)) == Step::Done(
        properties_read_back(c.properties),
        cid,
    )) by {
        lemma_payload_properties(c, rest);
    }
    assert(parse_mqtt_string(cid) == Step::Done(c.client_id, will)) by {
        lemma_mqtt_string_roundtrip(c.client_id, will);
    }
    lemma_connect_flags(c);
    assert(parse_last_will(f, will) == Step::Done(c.last_will, login)) by {
        lemma_last_will_roundtrip(f, c.last_will, login);
    }
    assert(parse_login(f, login) == Step::Done(c.login, rest)) by {
        lemma_login_roundtrip(f, c.login, rest);
    }
    lemma_after_level_steps(
        f,
        s,
        properties_read_back(c.properties),
        cid,
        c.client_id,
        will,
        c.last_will,
        login,
        c.login,
        rest,
    );
}

/// The connection property section at the front of a CONNECT packet's payload
/// reads back as written.
#[verifier::spinoff_prover]
proof fn lemma_payload_properties(c: ConnectView, rest: Seq<u8>)
    requires
        connect_payload_fits(c),
    ensures
        parse_connect_properties(connect_payload_bytes(c) + rest) == Step::Done(
            properties_read_back(c.properties),
            mqtt_string_encoding(c.client_id) + (opt_last_will_bytes(c.last_will) + (
            opt_login_bytes(c.login) + rest)),
        ),
{
    let p = c.properties->0;
    let cid = mqtt_string_encoding(c.client_id) + (opt_last_will_bytes(c.last_will) + (
    opt_login_bytes(c.login) + rest));
    let section = remaining_length_bytes(connect_properties_bytes(p).len())
        + connect_properties_bytes(p);
    assert(connect_payload_bytes(c) == section + mqtt_string_encoding(c.client_id)
        + opt_last_will_bytes(c.last_will) + opt_login_bytes(c.login));
    lemma_regroup(
        section,
        mqtt_string_encoding(c.client_id),
        opt_last_will_bytes(c.last_will),
        opt_login_bytes(c.login),
        rest,
    );
    if connect_properties_bytes(p).len() == 0 {
        let s = section + cid;
        assert(remaining_length_bytes(0) == seq![0u8]);
        assert(s[0] == 0u8);
        assert(s.skip(1) =~= cid);
    } else {
        lemma_connect_properties_roundtrip(p, cid);
    }
}

/// Concatenation regrouped to the right.
#[verifier::spinoff_prover]
proof fn lemma_regroup(a: Seq<u8>, b: Seq<u8>, c: Seq<u8>, d: Seq<u8>, e: Seq<u8>)
    ensures
        a + b + c + d + e == a + (b + (c + (d + e))),
{
    assert(a + b + c + d + e =~= a + (b + (c + (d + e))));
}

/// The variable header and payload of a CONNECT packet read back as written.
#[verifier::spinoff_prover]
#[verifier::rlimit(40)]
proof fn lemma_connect_body_roundtrip(c: ConnectView, rest: Seq<u8>)
    requires
        c.protocol == Protocol::MQTT(5),
        connect_payload_fits(c),
    ensures
        parse_connect(connect_body(c, connect_flags(c)) + rest) == Step::Done(
            ConnectView { properties: properties_read_back(c.properties), ..c },
            rest,
        ),
{
    let f = connect_flags(c);
    let tail = u16_bytes(c.keep_alive) + (connect_payload_bytes(c) + rest);
    let s1 = seq![5u8, f] + tail;
    lemma_mqtt_name_bytes();
    assert(connect_body(c, f) + rest == mqtt_string_encoding(mqtt_name()) + s1) by {
        assert(connect_body(c, f) + rest =~= mqtt_string_encoding(mqtt_name()) + s1);
    }
    lemma_mqtt_string_roundtrip(mqtt_name(), s1);
    assert(s1.skip(2) =~= tail);
    assert(s1[0] == 5u8 && s1[1] == f);
    let v = ConnectView { properties: properties_read_back(c.properties), ..c };
    assert(ConnectView {
        protocol: Protocol::MQTT(5),
        properties: properties_read_back(c.properties),
        ..c
    } == v);
    lemma_connect_payload_roundtrip(c, rest);
}

/// Setting the byte after the level in a packet sets the connect flags.
#[verifier::spinoff_prover]
proof fn lemma_set_flags(p: Seq<u8>, h: Seq<u8>, x: u8, y: u8, k: Seq<u8>, t: Seq<u8>)
    requires
        h.len() == 6,
    ensures
        (p + (h + seq![5u8, x] + k + t)).update(p.len() + 7int, y) == p + (h + seq![5u8, y] + k
            + t),
{
    assert((p + (h + seq![5u8, x] + k + t)).update(p.len() + 7int, y) =~= p + (h + seq![5u8, y] + k
        + t));
}

/// What writing a CONNECT packet to an empty buffer leaves there is the packet
/// with its connect flags in place.
#[verifier::spinoff_prover]
proof fn lemma_written_packet(c: ConnectView)
    requires
        connect_len(c) <= MAX_REMAINING_LENGTH,
    ensures
        connect_written(Seq::<u8>::empty(), c) == seq![0x10u8] + remaining_length_bytes(
            connect_len(c),
        ) + connect_body(c, connect_flags(c)),
        connect_body(c, connect_flags(c)).len() == connect_len(c),
{
    let p = seq![0x10u8] + remaining_length_bytes(connect_len(c));
    let h = mqtt_string_encoding(mqtt_name());
    let k = u16_bytes(c.keep_alive);
    let t = connect_payload_bytes(c);
    lemma_mqtt_name_bytes();
    lemma_connect_len(c, connect_flags(c));
    assert(h.len() == 6);
    assert(Seq::<u8>::empty() + seq![0x10u8] + remaining_length_bytes(connect_len(c))
        + connect_body(c, clean_session_flag(c)) == p + (h + seq![5u8, clean_session_flag(c)] + k
        + t)) by {
        assert(Seq::<u8>::empty() + seq![0x10u8] + remaining_length_bytes(connect_len(c))
            + connect_body(c, clean_session_flag(c)) =~= p + (h + seq![
            5u8,
            clean_session_flag(c),
        ] + k + t));
    }
    assert(flags_index(c) == p.len() + 7);
    lemma_set_flags(p, h, clean_session_flag(c), connect_flags(c), k, t);
    assert(connect_body(c, connect_flags(c)) == h + seq![5u8, connect_flags(c)] + k + t);
    assert(p + connect_body(c, connect_flags(c)) =~= seq![0x10u8] + remaining_length_bytes(
        connect_len(c),
    ) + connect_body(c, connect_flags(c)));
}

/// The fixed header in front of a CONNECT packet's body reads as packet type 1
/// with the body's length.
#[verifier::spinoff_prover]
proof fn lemma_fixed_header(n: nat, body: Seq<u8>, rest: Seq<u8>, max_size: nat)
    requires
        body.len() == n,
        0 < n <= MAX_REMAINING_LENGTH,
        n <= max_size,
    ensures
        check_spec(seq![0x10u8] + remaining_length_bytes(n) + body + rest, max_size) == Ok::<
            FixedHeader,
            Error,
        >(
            FixedHeader {
                byte1: 0x10,
                fixed_len: (remaining_length_bytes(n).len() + 1) as usize,
                remaining_len: n as usize,
            },
        ),
        remaining_length_bytes(n).len() <= 4,
{
    let s = seq![0x10u8] + remaining_length_bytes(n) + body + rest;
    lemma_remaining_length_size(n);
    assert(pow128(4) == 268_435_456) by {
        reveal_with_fuel(pow128, 5);
    }
    assert(s.drop_first() == remaining_length_bytes(n) + (body + rest)) by {
        assert(s.drop_first() =~= remaining_length_bytes(n) + (body + rest));
    }
    lemma_remaining_length_roundtrip(n, body + rest, 0);
    assert(s[0] == 0x10);
}

/// Reading a packet whose fixed header says type 1 and whose body reads as a
/// CONNECT packet gives that packet, and what follows the frame.
#[verifier::spinoff_prover]
proof fn lemma_read_frame(n: nat, body: Seq<u8>, rest: Seq<u8>, max_size: nat, v: ConnectView)
    requires
        body.len() == n,
        0 < n <= MAX_REMAINING_LENGTH,
        n <= max_size,
        parse_connect(body + Seq::<u8>::empty()) == Step::Done(v, Seq::<u8>::empty()),
    ensures
        read_packet_spec(seq![0x10u8] + remaining_length_bytes(n) + body + rest, max_size)
            == Step::Done(v, rest),
{
    let s = seq![0x10u8] + remaining_length_bytes(n) + body + rest;
    lemma_fixed_header(n, body, rest, max_size);
    let fixed = remaining_length_bytes(n).len() + 1;
    let frame_len = fixed + n;
    assert((0x10u8 >> 4u8) == 1u8) by (bit_vector);
    assert(s.take(frame_len as int).skip(fixed as int) == body + Seq::<u8>::empty()) by {
        assert(s.take(frame_len as int).skip(fixed as int) =~= body + Seq::<u8>::empty());
    }
    assert(s.skip(frame_len as int) == rest) by {
        assert(s.skip(frame_len as int) =~= rest);
    }
}

/// The body of a CONNECT packet takes at least its ten header bytes.
#[verifier::spinoff_prover]
proof fn lemma_connect_len_min(c: ConnectView)
    ensures
        connect_len(c) >= 10,
{
    lemma_mqtt_name_bytes();
}

/// A CONNECT packet written to an empty buffer is read back as the same packet,
/// and what follows it in the stream is left as it was, whenever the packet is
/// one that reads back as written and its remaining length is within the limit
/// the reader is given.
#[verifier::spinoff_prover]
pub proof fn lemma_connect_write_read(c: ConnectView, rest: Seq<u8>, max_size: nat)
    requires
        connect_fits(c),
        connect_len(c) <= max_size,
    ensures
        read_packet_spec(connect_written(Seq::<u8>::empty(), c) + rest, max_size) == Step::Done(
            c,
            rest,
        ),
{
    lemma_written_packet(c);
    lemma_connect_len_min(c);
    lemma_connect_body_roundtrip(c, Seq::<u8>::empty());
    assert(ConnectView { properties: properties_read_back(c.properties), ..c } == c);
    lemma_read_frame(connect_len(c), connect_body(c, connect_flags(c)), rest, max_size, c);
}

/// A CONNECT packet whose connection properties are set but empty is written with
/// a property section of length zero, and is read back as the same packet with
/// no properties, what follows it left in place; the conditions on the rest of
/// the packet are those under which it reads back as written.
#[verifier::spinoff_prover]
pub proof fn lemma_connect_write_read_empty_properties(c: ConnectView, rest: Seq<u8>, max_size: nat)
    requires
        c.protocol == Protocol::MQTT(5),
        connect_payload_fits(c),
        c.properties matches Some(p) && connect_properties_bytes(p).len() == 0,
        connect_len(c) <= MAX_REMAINING_LENGTH,
        connect_len(c) <= max_size,
    ensures
        connect_payload_bytes(c).take(1) == seq![0u8],
        read_packet_spec(connect_written(Seq::<u8>::empty(), c) + rest, max_size) == Step::Done(
            ConnectView { properties: None, ..c },
            rest,
        ),
{
    let p = c.properties->0;
    assert(remaining_length_bytes(0) == seq![0u8]);
    assert(connect_payload_bytes(c)[0] == 0u8);
    assert(connect_payload_bytes(c).take(1) =~= seq![0u8]);
    lemma_written_packet(c);
    lemma_connect_len_min(c);
    lemma_connect_body_roundtrip(c, Seq::<u8>::empty());
    lemma_read_frame(
        connect_len(c),
        connect_body(c, connect_flags(c)),
        rest,
        max_size,
        ConnectView { properties: None, ..c },
    );
}

/// Login credentials, one of them not empty, written with the connect flags that
/// `Login::write` returns, read back as the same credentials.
#[verifier::spinoff_prover]
pub proof fn lemma_login_write_read(l: LoginView, rest: Seq<u8>)
    requires
        login_fits(l),
    ensures
        parse_login(login_flags(l), login_bytes(l) + rest) == Step::Done(Some(l), rest),
{
    let uf: u8 = if l.username.len() > 0 { 0x80 } else { 0 };
    let pf: u8 = if l.password.len() > 0 { 0x40 } else { 0 };
    lemma_flag_bits(0, 0, 0, 0, uf | pf, uf, pf);
    lemma_or_zero(0u8);
    lemma_zero_or(uf | pf);
    assert(login_flags(l) == (0u8 | 0u8) | (uf | pf));
    lemma_login_roundtrip(login_flags(l), Some(l), rest);
}

/// A will that reads back as written, written with the connect flags that
/// `LastWill::write` returns, reads back as the same will.
#[verifier::spinoff_prover]
pub proof fn lemma_last_will_write_read(w: LastWillView, rest: Seq<u8>)
    requires
        last_will_fits(w),
    ensures
        parse_last_will(last_will_flags(w), last_will_bytes(w) + rest) == Step::Done(Some(w), rest),
{
    let q = qos_number(w.qos);
    let rf: u8 = if w.retain { 0x20 } else { 0 };
    let wf = (0u8 | (0x04u8 | (q << 3u8))) | rf;
    lemma_qos_number_roundtrip(w.qos);
    lemma_or_zero(0u8 | (0x04u8 | (q << 3u8)));
    lemma_or_zero(wf);
    lemma_or_zero(0u8);
    lemma_zero_or(wf);
    assert(last_will_flags(w) == (0u8 | wf) | (0u8 | 0u8));
    assert((0u8 | (0x04u8 | (q << 3u8))) | rf != 0) by (bit_vector);
    lemma_flag_bits(0, wf, q, rf, 0u8 | 0u8, 0, 0);
    lemma_last_will_roundtrip(last_will_flags(w), Some(w), rest);
}

/// Whatever the will property section holds, a will that is read takes its QoS
/// from bits 3 and 4 of the connect flags and its retain flag from bit 5, and a
/// will is read exactly when bit 2 is set.
#[verifier::spinoff_prover]
pub proof fn lemma_last_will_flags_read(flags: u8, s: Seq<u8>)
    ensures
        parse_last_will(flags, s) matches Step::Done(Some(w), _) ==> flags & 0b100 != 0
            && w.retain == (flags & 0b0010_0000 != 0) && qos_number(w.qos) == (flags & 0b11000)
            >> 3u8,
        parse_last_will(flags, s) matches Step::Done(None, r) ==> flags & 0b100 == 0 && r == s,
{
    let q = (flags & 0b11000) >> 3u8;
    if q <= 2 {
        assert(qos_number(qos_from_number(q)) == q);
    }
}

/// The bytes written for a will are its property section (none where it has no
/// properties), then what reads as its topic, then what reads as its message.
#[verifier::spinoff_prover]
pub proof fn lemma_last_will_layout(w: LastWillView, rest: Seq<u8>)
    requires
        encode_utf8(w.topic).len() < 65536,
        w.message.len() < 65536,
    ensures
        ({
            let s = last_will_bytes(w) + rest;
            let k = will_properties_section(w.properties).len();
            &&& w.properties is None ==> k == 0
            &&& w.properties matches Some(p) ==> will_properties_section(w.properties)
                == remaining_length_bytes(will_properties_bytes(p).len()) + will_properties_bytes(p)
            &&& s.take(k as int) == will_properties_section(w.properties)
            &&& parse_mqtt_string(s.skip(k as int)) == Step::Done(
                w.topic,
                mqtt_bytes_encoding(w.message) + rest,
            )
            &&& parse_mqtt_bytes(mqtt_bytes_encoding(w.message) + rest) == Step::Done(
                w.message,
                rest,
            )
        }),
{
    let s = last_will_bytes(w) + rest;
    let sec = will_properties_section(w.properties);
    let k = sec.len();
    let topic = mqtt_string_encoding(w.topic);
    let msg = mqtt_bytes_encoding(w.message);
    assert(s == sec + (topic + (msg + rest))) by {
        assert(s =~= sec + (topic + (msg + rest)));
    }
    assert(s.take(k as int) =~= sec);
    assert(s.skip(k as int) =~= topic + (msg + rest));
    lemma_mqtt_string_roundtrip(w.topic, msg + rest);
    lemma_mqtt_bytes_roundtrip(w.message, rest);
}

} // verus!
