//! The fixed header that starts every MQTT packet, and reading a whole packet off
//! the front of a stream of bytes.
use crate::buf::{
    bytes_mut_as_slice, bytes_mut_contents, bytes_mut_freeze, bytes_mut_split_to,
};
use crate::codec::{decode_remaining_length, length, Error, Step, MAX_REMAINING_LENGTH};
use crate::connect::{parse_connect_frame, Connect, ConnectView};
use bytes::BytesMut;
use vstd::prelude::*;

verus! {

/// The fixed header of a packet: its first byte (packet type and flags), how many
/// bytes the fixed header takes, and the remaining length after it.
#[derive(Debug, Clone, Copy, PartialEq, Eq)]
pub struct FixedHeader {
    pub byte1: u8,
    pub fixed_len: usize,
    pub remaining_len: usize,
}

/// The kinds of MQTT packets.
#[derive(Debug, Clone, Copy, PartialEq, Eq)]
pub enum PacketType {
    Connect,
    ConnAck,
    Publish,
    PubAck,
    PubRec,
    PubRel,
    PubComp,
    Subscribe,
    SubAck,
    Unsubscribe,
    UnsubAck,
    PingReq,
    PingResp,
    Disconnect,
}

/// The number of a packet kind, as the top four bits of the first byte carry it.
pub open spec fn packet_type_number(t: PacketType) -> u8 {
    match t {
        PacketType::Connect => 1,
        PacketType::ConnAck => 2,
        PacketType::Publish => 3,
        PacketType::PubAck => 4,
        PacketType::PubRec => 5,
        PacketType::PubRel => 6,
        PacketType::PubComp => 7,
        PacketType::Subscribe => 8,
        PacketType::SubAck => 9,
        PacketType::Unsubscribe => 10,
        PacketType::UnsubAck => 11,
        PacketType::PingReq => 12,
        PacketType::PingResp => 13,
        PacketType::Disconnect => 14,
    }
}

/// A packet read off a stream. This library decodes CONNECT packets.
#[derive(Debug, Clone, PartialEq)]
pub enum Packet {
    Connect(Connect),
}

impl FixedHeader {
    /// The fixed header with first byte `byte1` and a remaining length of
    /// `remaining_len` that takes `remaining_len_len` bytes.
    pub fn new(byte1: u8, remaining_len_len: usize, remaining_len: usize) -> (h: FixedHeader)
        requires
            remaining_len_len < usize::MAX,
        ensures
            h.byte1 == byte1,
            h.fixed_len == remaining_len_len + 1,
            h.remaining_len == remaining_len,
    {
        FixedHeader { byte1, fixed_len: remaining_len_len + 1, remaining_len }
    }

    /// The kind of packet, from the top four bits of the first byte.
    pub fn packet_type(&self) -> (r: Result<PacketType, Error>)
        ensures
            match r {
                Ok(t) => packet_type_number(t) == self.byte1 >> 4u8,
                Err(e) => (self.byte1 >> 4u8 == 0 || self.byte1 >> 4u8 == 15) && e
                    == Error::InvalidPacketType(self.byte1 >> 4u8),
            },
    {
        let b = self.byte1;
        let num = b >> 4;
        assert(b >> 4u8 <= 15) by (bit_vector);
        match num {
            1 => Ok(PacketType::Connect),
            2 => Ok(PacketType::ConnAck),
            3 => Ok(PacketType::Publish),
            4 => Ok(PacketType::PubAck),
            5 => Ok(PacketType::PubRec),
            6 => Ok(PacketType::PubRel),
            7 => Ok(PacketType::PubComp),
            8 => Ok(PacketType::Subscribe),
            9 => Ok(PacketType::SubAck),
            10 => Ok(PacketType::Unsubscribe),
            11 => Ok(PacketType::UnsubAck),
            12 => Ok(PacketType::PingReq),
            13 => Ok(PacketType::PingResp),
            14 => Ok(PacketType::Disconnect),
            _ => Err(Error::InvalidPacketType(num)),
        }
    }

    /// How many bytes the whole packet takes: fixed header and remaining length.
    pub fn frame_length(&self) -> (n: usize)
        requires
            self.fixed_len + self.remaining_len <= usize::MAX,
        ensures
            n == self.fixed_len + self.remaining_len,
    {
        self.fixed_len + self.remaining_len
    }
}

/// Reads a fixed header off the front of `s`: the first byte, how many bytes the
/// fixed header takes, and the remaining length. At least two bytes are needed.
pub open spec fn parse_fixed_header_spec(s: Seq<u8>) -> Result<FixedHeader, Error> {
    if s.len() < 2 {
        Err(Error::InsufficientBytes((2 - s.len()) as usize))
    } else {
        match decode_remaining_length(s.drop_first()) {
            Ok((n, v)) => Ok(
                FixedHeader { byte1: s[0], fixed_len: (n + 1) as usize, remaining_len: v as usize },
            ),
            Err(e) => Err(e),
        }
    }
}

/// Reads the fixed header at the front of `stream`.
pub fn parse_fixed_header(stream: &[u8]) -> (r: Result<FixedHeader, Error>)
    ensures
        r == parse_fixed_header_spec(stream@),
        r matches Ok(h) ==> h.fixed_len <= 5 && h.fixed_len <= stream@.len() && h.remaining_len
            <= MAX_REMAINING_LENGTH,
{
    let stream_len = stream.len();
    if stream_len < 2 {
        return Err(Error::InsufficientBytes(2 - stream_len));
    }
    let byte1 = stream[0];
    let rest = vstd::slice::slice_subrange(stream, 1, stream_len);
    assert(rest@ =~= stream@.drop_first());
    let (len_len, len) = length(rest)?;
    Ok(FixedHeader::new(byte1, len_len, len))
}

/// Checks that `s` starts with a whole packet no larger than `max_packet_size`,
/// and gives its fixed header.
pub open spec fn check_spec(s: Seq<u8>, max_packet_size: nat) -> Result<FixedHeader, Error> {
    match parse_fixed_header_spec(s) {
        Ok(h) => if h.remaining_len > max_packet_size {
            Err(Error::PayloadSizeLimitExceeded(h.remaining_len))
        } else if s.len() < h.fixed_len + h.remaining_len {
            Err(Error::InsufficientBytes((h.fixed_len + h.remaining_len - s.len()) as usize))
        } else {
            Ok(h)
        },
        Err(e) => Err(e),
    }
}

/// Checks that `stream` starts with a whole packet whose remaining length is at
/// most `max_packet_size`, and gives its fixed header.
pub fn check(stream: &[u8], max_packet_size: usize) -> (r: Result<FixedHeader, Error>)
    ensures
        r == check_spec(stream@, max_packet_size as nat),
        r matches Ok(h) ==> h.fixed_len <= 5 && h.remaining_len <= MAX_REMAINING_LENGTH
            && h.fixed_len + h.remaining_len <= stream@.len(),
{
    let stream_len = stream.len();
    let fixed_header = parse_fixed_header(stream)?;

    // Don't let rogue connections attack with huge payloads.
    // Disconnect them before reading all that data
    if fixed_header.remaining_len > max_packet_size {
        return Err(Error::PayloadSizeLimitExceeded(fixed_header.remaining_len));
    }

    // If the current call fails due to insufficient bytes in the stream,
    // after calculating remaining length, we extend the stream
    let frame_length = fixed_header.frame_length();
    if stream_len < frame_length {
        return Err(Error::InsufficientBytes(frame_length - stream_len));
    }

    Ok(fixed_header)
}

/// Reads one packet off the front of `s`, whose remaining length may be at most
/// `max_size`. Only CONNECT packets are decoded; any other valid packet type is
/// refused as unsupported, and a CONNECT packet with no body is refused.
pub open spec fn read_packet_spec(s: Seq<u8>, max_size: nat) -> Step<ConnectView> {
    match check_spec(s, max_size) {
        Err(e) => Step::Fail(e),
        Ok(h) => {
            let t = h.byte1 >> 4u8;
            let frame_len = h.fixed_len + h.remaining_len;
            if t == 0 || t == 15 {
                Step::Fail(Error::InvalidPacketType(t))
            } else if t != 1 {
                Step::Fail(Error::UnsupportedPacketType(t))
            } else if h.remaining_len == 0 {
                Step::Fail(Error::PayloadRequired)
            } else {
                match parse_connect_frame(h.fixed_len as nat, s.take(frame_len)) {
                    Step::Done(c, _) => Step::Done(c, s.skip(frame_len)),
                    Step::Fail(e) => Step::Fail(e),
                    Step::Exhausted => Step::Exhausted,
                }
            }
        },
    }
}

/// Reads one packet off the front of `stream` and removes it from there. The
/// packet's remaining length may be at most `max_size`. When the stream does not
/// yet hold a whole packet nothing is removed; once it does, the whole frame is
/// removed, whether or not its contents can be decoded. Reading must not run
/// out of bytes inside a field; `can_read_packet` tells whether it would.
pub fn mqtt_read(stream: &mut BytesMut, max_size: usize) -> (r: Result<Packet, Error>)
    requires
        !(read_packet_spec(bytes_mut_contents(*old(stream)), max_size as nat) is Exhausted),
    ensures
        match read_packet_spec(bytes_mut_contents(*old(stream)), max_size as nat) {
            Step::Done(c, rest) => r matches Ok(Packet::Connect(x)) && x@ == c,
            Step::Fail(e) => r == Err::<Packet, Error>(e),
            Step::Exhausted => false,
        },
        match check_spec(bytes_mut_contents(*old(stream)), max_size as nat) {
            Ok(h) => bytes_mut_contents(*final(stream)) == bytes_mut_contents(*old(stream)).skip(
                h.fixed_len + h.remaining_len,
            ),
            Err(_) => bytes_mut_contents(*final(stream)) == bytes_mut_contents(*old(stream)),
        },
{
    let fixed_header = check(bytes_mut_as_slice(stream), max_size)?;

    let packet = bytes_mut_split_to(stream, fixed_header.frame_length());
    let packet_type = fixed_header.packet_type()?;

    match packet_type {
        PacketType::Connect => {},
        _ => return Err(Error::UnsupportedPacketType(fixed_header.byte1 >> 4)),
    }

    if fixed_header.remaining_len == 0 {
        return Err(Error::PayloadRequired);
    }

    let packet = bytes_mut_freeze(packet);
    let connect = Connect::assemble(fixed_header, packet)?;
    Ok(Packet::Connect(connect))
}

} // verus!
