//! PUBACK and UNSUBACK: the acknowledgements that carry a packet
//! identifier, then an optional reason code and properties. When the
//! reason code is success and no properties follow, only the packet
//! identifier is sent (remaining length 2), and a reader of that short
//! form supplies reason 0x00 and an empty set.

use vstd::prelude::*;
use crate::errors::MqttError;
use crate::fixed_header::{
    body_fits, spec_packet_bytes, write_packet, PUBACK_PACKET, UNSUBACK_PACKET,
};
use crate::primitives::{
    lemma_spec_vbi_len, lemma_u16_round_trip, parse_u16_be, parse_u8, spec_u16_be, spec_vbi,
    write_bytes, write_u16_be, write_u8, ByteReader,
};
use crate::properties::{
    lemma_property_set_round_trip, parse_property_set, property_set_fits, spec_properties_bytes,
    spec_property_set_bytes, PropertyView, VariableHeaderProperties,
};

verus! {

/// Body shared by PUBACK and UNSUBACK: the packet identifier alone
/// when the reason is 0x00 and no properties follow, else identifier,
/// reason code and properties.
pub open spec fn spec_ack_body(pid: u16, rc: u8, ps: Seq<PropertyView>) -> Seq<u8> {
    if rc == 0 && ps.len() == 0 {
        spec_u16_be(pid)
    } else {
        spec_u16_be(pid) + seq![rc] + spec_property_set_bytes(ps)
    }
}

/// Read an acknowledgement body, consuming it exactly.
pub open spec fn parse_ack_body(s: Seq<u8>) -> Option<(u16, u8, Seq<PropertyView>)> {
    if s.len() == 2 {
        match parse_u16_be(s) {
            Some((pid, _)) => Some((pid, 0u8, Seq::<PropertyView>::empty())),
            None => None,
        }
    } else {
        match parse_u16_be(s) {
            Some((pid, r1)) => match parse_u8(r1) {
                Some((rc, r2)) => match parse_property_set(r2) {
                    Some((ps, rest)) => if rest.len() == 0 {
                        Some((pid, rc, ps))
                    } else {
                        None
                    },
                    None => None,
                },
                None => None,
            },
            None => None,
        }
    }
}

/// Decoding an encoded acknowledgement body yields the fields back.
pub proof fn lemma_ack_round_trip(pid: u16, rc: u8, ps: Seq<PropertyView>)
    requires
        property_set_fits(ps),
    ensures
        parse_ack_body(spec_ack_body(pid, rc, ps)) == Some((pid, rc, ps)),
{
    if rc == 0 && ps.len() == 0 {
        assert(spec_u16_be(pid) + Seq::<u8>::empty() =~= spec_u16_be(pid));
        lemma_u16_round_trip(pid, Seq::<u8>::empty());
    } else {
        let pset = spec_property_set_bytes(ps);
        let s = spec_ack_body(pid, rc, ps);
        lemma_spec_vbi_len(spec_properties_bytes(ps).len() as nat);
        assert(spec_vbi(spec_properties_bytes(ps).len() as nat).len() >= 1);
        assert(s.len() >= 4);
        assert(s =~= spec_u16_be(pid) + (seq![rc] + pset));
        lemma_u16_round_trip(pid, seq![rc] + pset);
        assert((seq![rc] + pset).skip(1) =~= pset);
        assert(pset + Seq::<u8>::empty() =~= pset);
        lemma_property_set_round_trip(ps, Seq::<u8>::empty());
    }
}

/// Whether an acknowledgement can be framed.
pub open spec fn ack_fits(pid: u16, rc: u8, ps: Seq<PropertyView>) -> bool {
    property_set_fits(ps) && body_fits(spec_ack_body(pid, rc, ps))
}

/// Serialise an acknowledgement body.
fn write_ack_body(
    out: &mut Vec<u8>,
    pid: u16,
    rc: u8,
    properties: &VariableHeaderProperties,
) -> (r: Result<(), MqttError>)
    ensures
        if property_set_fits(properties@) {
            r == Ok::<(), MqttError>(()) && final(out)@ == old(out)@ + spec_ack_body(
                pid,
                rc,
                properties@,
            )
        } else {
            r == Err::<(), MqttError>(MqttError::BadArgument) && final(out)@ == old(out)@
        },
{
    if rc == 0 && properties.properties.len() == 0 {
        assert(properties@.len() == 0);
        write_u16_be(out, pid);
        Ok(())
    } else {
        let pset = match properties.as_bytes() {
            Ok(b) => b,
            Err(_) => {
                return Err(MqttError::BadArgument);
            },
        };
        write_u16_be(out, pid);
        write_u8(out, rc);
        write_bytes(out, pset.as_slice());
        assert(final(out)@ =~= old(out)@ + spec_ack_body(pid, rc, properties@));
        Ok(())
    }
}

/// Decode an acknowledgement body of exactly `body`'s length.
fn read_ack_body(body: Vec<u8>) -> (r: Result<(u16, u8, VariableHeaderProperties), MqttError>)
    ensures
        match parse_ack_body(body@) {
            Some((pid, rc, ps)) => r matches Ok((gpid, grc, gps)) && gpid == pid && grc == rc
                && gps@ == ps,
            None => r == Err::<(u16, u8, VariableHeaderProperties), MqttError>(
                MqttError::Malformed,
            ),
        },
{
    let short = body.len() == 2;
    let mut br = ByteReader::new(body);
    let pid = match br.read_u16() {
        Ok(p) => p,
        Err(_) => {
            return Err(MqttError::Malformed);
        },
    };
    if short {
        let props = VariableHeaderProperties::new();
        return Ok((pid, 0, props));
    }
    let rc = match br.read_u8() {
        Ok(c) => c,
        Err(_) => {
            return Err(MqttError::Malformed);
        },
    };
    let properties = match VariableHeaderProperties::read_from(&mut br) {
        Ok(p) => p,
        Err(_) => {
            return Err(MqttError::Malformed);
        },
    };
    if !br.at_end() {
        return Err(MqttError::Malformed);
    }
    Ok((pid, rc, properties))
}

/// A PUBACK packet.
#[derive(Debug)]
pub struct Puback {
    pub packet_identifier: u16,
    pub reason_code: u8,
    pub properties: VariableHeaderProperties,
}

/// The mathematical model of a PUBACK.
#[verifier::ext_equal]
pub struct PubackView {
    pub packet_identifier: u16,
    pub reason_code: u8,
    pub properties: Seq<PropertyView>,
}

impl View for Puback {
    type V = PubackView;

    open spec fn view(&self) -> PubackView {
        PubackView {
            packet_identifier: self.packet_identifier,
            reason_code: self.reason_code,
            properties: self.properties@,
        }
    }
}

/// A whole PUBACK packet.
pub open spec fn spec_puback_packet_bytes(v: PubackView) -> Seq<u8> {
    spec_packet_bytes(
        PUBACK_PACKET,
        spec_ack_body(v.packet_identifier, v.reason_code, v.properties),
    )
}

impl Puback {
    /// Serialise the packet, fixed header included.
    pub fn write_to(&self, out: &mut Vec<u8>) -> (r: Result<(), MqttError>)
        ensures
            if ack_fits(self@.packet_identifier, self@.reason_code, self@.properties) {
                r == Ok::<(), MqttError>(()) && final(out)@ == old(out)@
                    + spec_puback_packet_bytes(self@)
            } else {
                r == Err::<(), MqttError>(MqttError::BadArgument) && final(out)@ == old(out)@
            },
    {
        let mut body: Vec<u8> = Vec::new();
        match write_ack_body(&mut body, self.packet_identifier, self.reason_code,
            &self.properties) {
            Ok(()) => {},
            Err(_) => {
                return Err(MqttError::BadArgument);
            },
        }
        write_packet(out, PUBACK_PACKET, &body)
    }

    /// Decode a PUBACK body of `remaining_length` bytes, the fixed
    /// header already read.
    pub fn read_from(reader: &mut ByteReader, remaining_length: u32) -> (r: Result<
        Puback,
        MqttError,
    >)
        requires
            old(reader).wf(),
        ensures
            final(reader).wf(),
            final(reader).data == old(reader).data,
            old(reader).remaining().len() < remaining_length ==> r == Err::<Puback, MqttError>(
                MqttError::Malformed,
            ) && *final(reader) == *old(reader),
            old(reader).remaining().len() >= remaining_length ==> {
                &&& final(reader).remaining() == old(reader).remaining().skip(
                    remaining_length as int,
                )
                &&& match parse_ack_body(old(reader).remaining().take(remaining_length as int)) {
                    Some((pid, rc, ps)) => r matches Ok(p) && p@ == (PubackView {
                        packet_identifier: pid,
                        reason_code: rc,
                        properties: ps,
                    }),
                    None => r == Err::<Puback, MqttError>(MqttError::Malformed),
                }
            },
    {
        let body = match reader.take(remaining_length as usize) {
            Ok(b) => b,
            Err(_) => {
                return Err(MqttError::Malformed);
            },
        };
        match read_ack_body(body) {
            Ok((packet_identifier, reason_code, properties)) => Ok(
                Puback { packet_identifier, reason_code, properties },
            ),
            Err(_) => Err(MqttError::Malformed),
        }
    }
}

/// An UNSUBACK packet; same wire shape as PUBACK.
#[derive(Debug)]
pub struct Unsuback {
    pub packet_identifier: u16,
    pub reason_code: u8,
    pub properties: VariableHeaderProperties,
}

/// The mathematical model of an UNSUBACK.
#[verifier::ext_equal]
pub struct UnsubackView {
    pub packet_identifier: u16,
    pub reason_code: u8,
    pub properties: Seq<PropertyView>,
}

impl View for Unsuback {
    type V = UnsubackView;

    open spec fn view(&self) -> UnsubackView {
        UnsubackView {
            packet_identifier: self.packet_identifier,
            reason_code: self.reason_code,
            properties: self.properties@,
        }
    }
}

/// A whole UNSUBACK packet.
pub open spec fn spec_unsuback_packet_bytes(v: UnsubackView) -> Seq<u8> {
    spec_packet_bytes(
        UNSUBACK_PACKET,
        spec_ack_body(v.packet_identifier, v.reason_code, v.properties),
    )
}

impl Unsuback {
    /// Serialise the packet, fixed header included.
    pub fn write_to(&self, out: &mut Vec<u8>) -> (r: Result<(), MqttError>)
        ensures
            if ack_fits(self@.packet_identifier, self@.reason_code, self@.properties) {
                r == Ok::<(), MqttError>(()) && final(out)@ == old(out)@
                    + spec_unsuback_packet_bytes(self@)
            } else {
                r == Err::<(), MqttError>(MqttError::BadArgument) && final(out)@ == old(out)@
            },
    {
        let mut body: Vec<u8> = Vec::new();
        match write_ack_body(&mut body, self.packet_identifier, self.reason_code,
            &self.properties) {
            Ok(()) => {},
            Err(_) => {
                return Err(MqttError::BadArgument);
            },
        }
        write_packet(out, UNSUBACK_PACKET, &body)
    }

    /// Decode an UNSUBACK body of `remaining_length` bytes, the fixed
    /// header already read.
    pub fn read_from(reader: &mut ByteReader, remaining_length: u32) -> (r: Result<
        Unsuback,
        MqttError,
    >)
        requires
            old(reader).wf(),
        ensures
            final(reader).wf(),
            final(reader).data == old(reader).data,
            old(reader).remaining().len() < remaining_length ==> r == Err::<Unsuback, MqttError>(
                MqttError::Malformed,
            ) && *final(reader) == *old(reader),
            old(reader).remaining().len() >= remaining_length ==> {
                &&& final(reader).remaining() == old(reader).remaining().skip(
                    remaining_length as int,
                )
                &&& match parse_ack_body(old(reader).remaining().take(remaining_length as int)) {
                    Some((pid, rc, ps)) => r matches Ok(p) && p@ == (UnsubackView {
                        packet_identifier: pid,
                        reason_code: rc,
                        properties: ps,
                    }),
                    None => r == Err::<Unsuback, MqttError>(MqttError::Malformed),
                }
            },
    {
        let body = match reader.take(remaining_length as usize) {
            Ok(b) => b,
            Err(_) => {
                return Err(MqttError::Malformed);
            },
        };
        match read_ack_body(body) {
            Ok((packet_identifier, reason_code, properties)) => Ok(
                Unsuback { packet_identifier, reason_code, properties },
            ),
            Err(_) => Err(MqttError::Malformed),
        }
    }
}

} // verus!
