//! Telling in advance whether reading a packet would run out of bytes inside a
//! field: the readers need that ruled out, and these functions rule it out
//! without reading any value.
use crate::buf::{be_u16, bytes_mut_as_slice, bytes_mut_contents};
use crate::connect::{
    lemma_mqtt_name_bytes, mqtt_name, parse_connect, parse_connect_after_level, parse_last_will,
    parse_login,
};
use crate::packet::{check, read_packet_spec};
use bytes::BytesMut;
use crate::codec::{
    length, parse_mqtt_bytes, parse_mqtt_string, string_from_utf8, utf8_text, Step,
};
use crate::properties::{
    item_size, parse_property, parse_property_list, parse_property_section, property_allowed,
    PropertyScope,
};
use vstd::prelude::*;
use vstd::slice::{slice_subrange, slice_to_vec};
use vstd::utf8::{decode_utf8_encode_utf8, encode_utf8_decode_utf8};

verus! {

/// How scanning a field ends: where the rest begins, a refusal, or running out
/// of bytes.
pub enum Scan {
    Done(usize),
    Fail,
    Exhausted,
}

/// Whether scanning `s` ended as reading it does: at the same rest, with a
/// refusal, or out of bytes.
pub open spec fn scanned<T>(r: Scan, st: Step<T>, s: Seq<u8>) -> bool {
    match st {
        Step::Done(_, rest) => r matches Scan::Done(p) && p <= s.len() && rest == s.skip(
            p as int,
        ),
        Step::Fail(_) => r is Fail,
        Step::Exhausted => r is Exhausted,
    }
}

/// Scans length-prefixed bytes at `pos`.
fn scan_bytes(s: &[u8], pos: usize) -> (r: Scan)
    requires
        pos <= s@.len(),
    ensures
        scanned(r, parse_mqtt_bytes(s@.skip(pos as int)), s@),
        r matches Scan::Done(p) ==> p == pos + 2 + be_u16(s@.skip(pos as int)),
{
    let n = s.len();
    let ghost t = s@.skip(pos as int);
    if n - pos < 2 {
        return Scan::Fail;
    }
    let len = (s[pos] as usize) * 256 + s[pos + 1] as usize;
    assert(t[0] == s@[pos as int] && t[1] == s@[pos + 1]);
    assert(be_u16(t) == len);
    if len > n - pos - 2 {
        Scan::Fail
    } else {
        assert(t.skip(2 + len) =~= s@.skip(pos + 2 + len));
        Scan::Done(pos + 2 + len)
    }
}

/// Scans a length-prefixed UTF-8 string at `pos`; where it is read, the reader
/// moves past exactly its bytes.
fn scan_string(s: &[u8], pos: usize) -> (r: Scan)
    requires
        pos <= s@.len(),
    ensures
        scanned(r, parse_mqtt_string(s@.skip(pos as int)), s@),
        parse_mqtt_string(s@.skip(pos as int)) matches Step::Done(t, _) ==> r matches Scan::Done(p)
            && p == pos + 2 + vstd::utf8::encode_utf8(t).len(),
{
    let ghost t = s@.skip(pos as int);
    match scan_bytes(s, pos) {
        Scan::Done(p) => {
            let b = slice_subrange(s, pos + 2, p);
            assert(b@ =~= t.subrange(2, 2 + be_u16(t)));
            proof {
                reveal(utf8_text);
            }
            match string_from_utf8(slice_to_vec(b)) {
                Some(_) => {
                    proof {
                        decode_utf8_encode_utf8(b@);
                    }
                    Scan::Done(p)
                },
                None => Scan::Fail,
            }
        },
        Scan::Fail => Scan::Fail,
        Scan::Exhausted => Scan::Exhausted,
    }
}

/// Whether the section `scope` accepts the property identifier `id`.
fn is_allowed(scope: &PropertyScope, id: u8) -> (b: bool)
    ensures
        b == property_allowed(*scope, id),
{
    match scope {
        PropertyScope::Connect => id == 17 || id == 33 || id == 39 || id == 34 || id == 25 || id
            == 23 || id == 38 || id == 21 || id == 22,
        PropertyScope::Will => id == 24 || id == 1 || id == 2 || id == 3 || id == 8 || id == 9
            || id == 38,
    }
}

/// Scans one property of a section at `pos`; where it is read, the reader moves
/// past exactly its bytes.
#[verifier::rlimit(40)]
fn scan_property(s: &[u8], pos: usize, scope: &PropertyScope) -> (r: Scan)
    requires
        pos <= s@.len(),
    ensures
        scanned(r, parse_property(s@.skip(pos as int), *scope), s@),
        parse_property(s@.skip(pos as int), *scope) matches Step::Done(item, _) ==> r matches Scan::Done(p)
            && p == pos + item_size(item),
{
    let ghost t = s@.skip(pos as int);
    if pos >= s.len() {
        return Scan::Exhausted;
    }
    let id = s[pos];
    let q = pos + 1;
    let avail = s.len() - q;
    assert(t[0] == id);
    assert(t.drop_first() =~= s@.skip(q as int));
    if !is_allowed(scope, id) {
        Scan::Fail
    } else if id == 17 || id == 39 || id == 24 || id == 2 {
        if avail < 4 {
            Scan::Exhausted
        } else {
            assert(s@.skip(q as int).skip(4) =~= s@.skip(q + 4));
            Scan::Done(q + 4)
        }
    } else if id == 33 || id == 34 {
        if avail < 2 {
            Scan::Exhausted
        } else {
            assert(s@.skip(q as int).skip(2) =~= s@.skip(q + 2));
            Scan::Done(q + 2)
        }
    } else if id == 25 || id == 23 || id == 1 {
        if avail < 1 {
            Scan::Exhausted
        } else {
            assert(s@.skip(q as int).skip(1) =~= s@.skip(q + 1));
            Scan::Done(q + 1)
        }
    } else if id == 22 || id == 9 {
        scan_bytes(s, q)
    } else if id == 38 {
        match scan_string(s, q) {
            Scan::Done(p) => scan_string(s, p),
            Scan::Fail => Scan::Fail,
            Scan::Exhausted => Scan::Exhausted,
        }
    } else {
        scan_string(s, q)
    }
}

/// Whether two reads end alike: at the same rest, both refused, or both out of
/// bytes.
pub open spec fn same_end<A, B>(a: Step<A>, b: Step<B>) -> bool {
    match (a, b) {
        (Step::Done(_, r1), Step::Done(_, r2)) => r1 == r2,
        (Step::Fail(_), Step::Fail(_)) => true,
        (Step::Exhausted, Step::Exhausted) => true,
        _ => false,
    }
}

/// Scans the properties of a section of `plen` bytes at `pos`.
fn scan_property_list(s: &[u8], pos: usize, plen: usize, scope: &PropertyScope) -> (r: Scan)
    requires
        pos <= s@.len(),
    ensures
        scanned(r, parse_property_list(s@.skip(pos as int), *scope, 0, plen as nat), s@),
{
    let ghost total = parse_property_list(s@.skip(pos as int), *scope, 0, plen as nat);
    let mut p = pos;
    while p - pos < plen
        invariant
            pos <= p <= s@.len(),
            total == parse_property_list(s@.skip(pos as int), *scope, 0, plen as nat),
            same_end(
                total,
                parse_property_list(s@.skip(p as int), *scope, (p - pos) as nat, plen as nat),
            ),
        decreases s@.len() - p,
    {
        let ghost cur = parse_property_list(s@.skip(p as int), *scope, (p - pos) as nat, plen as nat);
        match scan_property(s, p, scope) {
            Scan::Done(q) => {
                proof {
                    let item = parse_property(s@.skip(p as int), *scope)->Done_0;
                    assert(item_size(item) > 0);
                    let next = parse_property_list(
                        s@.skip(q as int),
                        *scope,
                        (q - pos) as nat,
                        plen as nat,
                    );
                    assert(same_end(cur, next));
                }
                p = q;
            },
            Scan::Fail => {
                assert(cur is Fail);
                assert(total is Fail);
                return Scan::Fail;
            },
            Scan::Exhausted => {
                assert(cur is Exhausted);
                assert(total is Exhausted);
                return Scan::Exhausted;
            },
        }
    }
    Scan::Done(p)
}

/// Scans a property section at `pos`: its length, then its properties.
fn scan_section(s: &[u8], pos: usize, scope: &PropertyScope) -> (r: Scan)
    requires
        pos <= s@.len(),
    ensures
        scanned(r, parse_property_section(s@.skip(pos as int), *scope), s@),
{
    let rest = slice_subrange(s, pos, s.len());
    assert(rest@ =~= s@.skip(pos as int));
    match length(rest) {
        Err(_) => Scan::Fail,
        Ok((ll, plen)) => {
            let q = pos + ll;
            assert(s@.skip(pos as int).skip(ll as int) =~= s@.skip(q as int));
            if plen == 0 {
                Scan::Done(q)
            } else {
                scan_property_list(s, q, plen, scope)
            }
        },
    }
}

/// Scans the will that the connect flags `flags` announce, at `pos`.
fn scan_last_will(s: &[u8], pos: usize, flags: u8) -> (r: Scan)
    requires
        pos <= s@.len(),
    ensures
        scanned(r, parse_last_will(flags, s@.skip(pos as int)), s@),
{
    if flags & 0b100 == 0 {
        if flags & 0b0011_1000 != 0 {
            Scan::Fail
        } else {
            Scan::Done(pos)
        }
    } else {
        match scan_section(s, pos, &PropertyScope::Will) {
            Scan::Done(p1) => match scan_string(s, p1) {
                Scan::Done(p2) => match scan_bytes(s, p2) {
                    Scan::Done(p3) => {
                        let q = (flags & 0b11000) >> 3;
                        if q > 2 {
                            Scan::Fail
                        } else {
                            Scan::Done(p3)
                        }
                    },
                    other => other,
                },
                other => other,
            },
            other => other,
        }
    }
}

/// Scans the login that the connect flags `flags` announce, at `pos`.
fn scan_login(s: &[u8], pos: usize, flags: u8) -> (r: Scan)
    requires
        pos <= s@.len(),
    ensures
        scanned(r, parse_login(flags, s@.skip(pos as int)), s@),
{
    let p1 = if flags & 0x80 != 0 {
        match scan_string(s, pos) {
            Scan::Done(p) => p,
            other => {
                return other;
            },
        }
    } else {
        pos
    };
    if flags & 0x40 != 0 {
        scan_string(s, p1)
    } else {
        Scan::Done(p1)
    }
}

/// Scans what follows the connect flags `flags` of a CONNECT packet, at `pos`.
fn scan_after_level(s: &[u8], pos: usize, flags: u8) -> (r: Scan)
    requires
        pos <= s@.len(),
    ensures
        scanned(r, parse_connect_after_level(flags, s@.skip(pos as int)), s@),
{
    let ghost t = s@.skip(pos as int);
    if s.len() - pos < 2 {
        return Scan::Exhausted;
    }
    assert(t.skip(2) =~= s@.skip(pos + 2));
    match scan_section(s, pos + 2, &PropertyScope::Connect) {
        Scan::Done(p1) => match scan_string(s, p1) {
            Scan::Done(p2) => match scan_last_will(s, p2, flags) {
                Scan::Done(p3) => scan_login(s, p3, flags),
                other => other,
            },
            other => other,
        },
        other => other,
    }
}

/// Scans the variable header and payload of a CONNECT packet.
fn scan_connect(s: &[u8]) -> (r: Scan)
    ensures
        scanned(r, parse_connect(s@), s@),
{
    assert(s@.skip(0) =~= s@);
    match scan_string(s, 0) {
        Scan::Done(p) => {
            let ghost s1 = s@.skip(p as int);
            if p >= s.len() {
                return Scan::Exhausted;
            }
            let name = slice_subrange(s, 2, p);
            proof {
                lemma_mqtt_name_bytes();
                reveal(utf8_text);
                assert(name@ =~= s@.subrange(2, 2 + be_u16(s@)));
                decode_utf8_encode_utf8(name@);
                encode_utf8_decode_utf8(mqtt_name());
            }
            let is_mqtt = name.len() == 4 && name[0] == 0x4d && name[1] == 0x51 && name[2] == 0x54
                && name[3] == 0x54;
            proof {
                if is_mqtt {
                    assert(name@ =~= seq![0x4du8, 0x51u8, 0x54u8, 0x54u8]);
                }
            }
            assert(s1[0] == s@[p as int]);
            if !is_mqtt || s[p] != 5 {
                Scan::Fail
            } else if s.len() - p < 2 {
                Scan::Exhausted
            } else {
                assert(s1[1] == s@[p + 1]);
                assert(s1.skip(2) =~= s@.skip(p + 2));
                scan_after_level(s, p + 2, s[p + 1])
            }
        },
        other => other,
    }
}

/// Whether `mqtt_read` may be called on `stream` with the size limit `max_size`:
/// whether reading the packet at its front never runs out of bytes inside a
/// field (where the reader would panic). Any other outcome, a packet, a refusal
/// or a stream that does not hold a whole frame yet, is fine.
pub fn can_read_packet(stream: &BytesMut, max_size: usize) -> (b: bool)
    ensures
        b == !(read_packet_spec(bytes_mut_contents(*stream), max_size as nat) is Exhausted),
{
    let s = bytes_mut_as_slice(stream);
    match check(s, max_size) {
        Err(_) => true,
        Ok(h) => {
            let t = h.byte1 >> 4;
            if t == 0 || t == 15 || t != 1 || h.remaining_len == 0 {
                true
            } else {
                let frame_len = h.fixed_len + h.remaining_len;
                let frame = slice_subrange(s, h.fixed_len, frame_len);
                assert(frame@ =~= s@.take(frame_len as int).skip(h.fixed_len as int));
                match scan_connect(frame) {
                    Scan::Exhausted => false,
                    _ => true,
                }
            }
        },
    }
}

} // verus!
