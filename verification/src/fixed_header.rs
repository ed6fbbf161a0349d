//! The fixed header every control packet starts with: one byte of
//! packet type and flags, then the remaining length (the byte count of
//! variable header plus payload) as a variable-byte integer.

use vstd::prelude::*;
use crate::errors::MqttError;
use crate::primitives::{
    parse_u8, parse_vbi, spec_vbi, write_bytes, write_u8, write_vbi, ByteReader, VBI_MAX,
};

verus! {

/// First byte of CONNECT: type 1, flags 0.
pub const CONNECT_PACKET: u8 = 0x10;

/// First byte of CONNACK: type 2, flags 0.
pub const CONNACK_PACKET: u8 = 0x20;

/// First byte of PUBLISH with all flag bits clear: type 3; bit 3 is
/// DUP, bits 2-1 are the QoS, bit 0 is RETAIN.
pub const PUBLISH_PACKET: u8 = 0x30;

/// First byte of PUBACK: type 4, flags 0.
pub const PUBACK_PACKET: u8 = 0x40;

/// First byte of SUBSCRIBE: type 8, reserved flags 0b0010.
pub const SUBSCRIBE_PACKET: u8 = 0x82;

/// First byte of SUBACK: type 9, flags 0.
pub const SUBACK_PACKET: u8 = 0x90;

/// First byte of UNSUBSCRIBE: type 10, reserved flags 0b0010.
pub const UNSUBSCRIBE_PACKET: u8 = 0xA2;

/// First byte of UNSUBACK: type 11, flags 0.
pub const UNSUBACK_PACKET: u8 = 0xB0;

/// First byte of PINGREQ: type 12, flags 0.
pub const PINGREQ_PACKET: u8 = 0xC0;

/// First byte of PINGRESP: type 13, flags 0.
pub const PINGRESP_PACKET: u8 = 0xD0;

/// First byte of DISCONNECT: type 14, flags 0.
pub const DISCONNECT_PACKET: u8 = 0xE0;

/// The fixed header as read off the wire: the full first byte (type
/// nibble and flag nibble) and the remaining length.
#[derive(Debug, PartialEq, Eq, Structural, Clone, Copy)]
pub struct PacketFixedHeader {
    pub packet_type: u8,
    pub remaining_length: u32,
}

/// Encoding of a fixed header.
pub open spec fn spec_fixed_header_bytes(packet_type: u8, remaining_length: u32) -> Seq<u8> {
    seq![packet_type] + spec_vbi(remaining_length as nat)
}

/// Encoding of a whole packet: first byte, remaining length, body.
pub open spec fn spec_packet_bytes(first: u8, body: Seq<u8>) -> Seq<u8> {
    spec_fixed_header_bytes(first, body.len() as u32) + body
}

/// A body can be framed when its length fits a variable-byte integer.
pub open spec fn body_fits(body: Seq<u8>) -> bool {
    body.len() <= VBI_MAX
}

/// Read a fixed header: the first byte, then the remaining length.
pub open spec fn parse_fixed_header(s: Seq<u8>) -> Option<(PacketFixedHeader, Seq<u8>)> {
    match parse_u8(s) {
        Some((t, r)) => match parse_vbi(r) {
            Some((rl, rest)) => Some(
                (PacketFixedHeader { packet_type: t, remaining_length: rl as u32 }, rest),
            ),
            None => None,
        },
        None => None,
    }
}

/// Parsing a fixed header back out of a framed packet yields the first
/// byte, the body length, and the body followed by the rest.
pub proof fn lemma_fixed_header_round_trip(first: u8, body: Seq<u8>, rest: Seq<u8>)
    requires
        body_fits(body),
    ensures
        parse_fixed_header(spec_packet_bytes(first, body) + rest) == Some(
            (
                PacketFixedHeader { packet_type: first, remaining_length: body.len() as u32 },
                body + rest,
            ),
        ),
{
    let s = spec_packet_bytes(first, body) + rest;
    assert(s[0] == first);
    assert(s.skip(1) =~= spec_vbi(body.len() as nat) + (body + rest));
    crate::primitives::lemma_vbi_round_trip(body.len() as nat, body + rest);
}

impl PacketFixedHeader {
    /// Assemble a fixed header from its two fields.
    pub fn new(packet_type: u8, remaining_length: u32) -> (r: PacketFixedHeader)
        ensures
            r.packet_type == packet_type,
            r.remaining_length == remaining_length,
    {
        PacketFixedHeader { packet_type, remaining_length }
    }

    /// The remaining length fits its wire field.
    pub open spec fn wf(&self) -> bool {
        self.remaining_length <= VBI_MAX
    }

    /// Serialise the header: first byte, then the remaining length.
    pub fn as_bytes(&self) -> (out: Vec<u8>)
        requires
            self.wf(),
        ensures
            out@ == spec_fixed_header_bytes(self.packet_type, self.remaining_length),
    {
        let mut out: Vec<u8> = Vec::new();
        write_u8(&mut out, self.packet_type);
        write_vbi(&mut out, self.remaining_length);
        assert(out@ =~= spec_fixed_header_bytes(self.packet_type, self.remaining_length));
        out
    }

    /// Read a fixed header; `Malformed` on a short read or an
    /// over-long length field.
    pub fn read_from(reader: &mut ByteReader) -> (r: Result<PacketFixedHeader, MqttError>)
        requires
            old(reader).wf(),
        ensures
            final(reader).wf(),
            final(reader).data == old(reader).data,
            match parse_fixed_header(old(reader).remaining()) {
                Some((h, rest)) => (r matches Ok(got) && got == h && got.wf())
                    && final(reader).remaining() == rest,
                None => r == Err::<PacketFixedHeader, MqttError>(MqttError::Malformed),
            },
    {
        let packet_type = match reader.read_u8() {
            Ok(t) => t,
            Err(_) => {
                return Err(MqttError::Malformed);
            },
        };
        let remaining_length = match reader.read_vbi() {
            Ok(n) => n,
            Err(_) => {
                return Err(MqttError::Malformed);
            },
        };
        Ok(PacketFixedHeader { packet_type, remaining_length })
    }

    /// The packet-type nibble (1 for CONNECT through 14 for
    /// DISCONNECT).
    pub fn type_nibble(&self) -> (t: u8)
        ensures
            t == self.packet_type / 16,
    {
        self.packet_type / 16
    }
}

/// First byte of a PUBLISH packet: the type nibble over the DUP, QoS
/// and RETAIN flag bits.
pub open spec fn spec_publish_first_byte(dup: bool, qos: u8, retain: bool) -> u8 {
    ((if dup {
        8int
    } else {
        0int
    }) + 0x30 + (qos * 2) + (if retain {
        1int
    } else {
        0int
    })) as u8
}

/// Build the PUBLISH first byte from numeric flag values.
pub fn _create_publish_header_flags(dup_flag: u8, qos_level: u8, retain: u8) -> (r: u8)
    requires
        dup_flag <= 1,
        qos_level <= 2,
        retain <= 1,
    ensures
        r == spec_publish_first_byte(dup_flag == 1, qos_level, retain == 1),
{
    PUBLISH_PACKET + dup_flag * 8 + qos_level * 2 + retain
}

/// Frame a packet body: emit the first byte, the body length as a
/// variable-byte integer, then the body. `BadArgument` exactly when
/// the body outgrows the length field, leaving the output untouched.
pub fn write_packet(out: &mut Vec<u8>, first: u8, body: &Vec<u8>) -> (r: Result<(), MqttError>)
    ensures
        if body_fits(body@) {
            r == Ok::<(), MqttError>(()) && final(out)@ == old(out)@ + spec_packet_bytes(
                first,
                body@,
            )
        } else {
            r == Err::<(), MqttError>(MqttError::BadArgument) && final(out)@ == old(out)@
        },
{
    if body.len() > VBI_MAX as usize {
        return Err(MqttError::BadArgument);
    }
    write_u8(out, first);
    write_vbi(out, body.len() as u32);
    write_bytes(out, body.as_slice());
    assert(final(out)@ =~= old(out)@ + spec_packet_bytes(first, body@));
    Ok(())
}

} // verus!
