//! DISCONNECT: the orderly end of a session. A reason code and
//! properties; a remaining length of zero stands for reason 0x00 with
//! an empty property set.

use vstd::prelude::*;
use crate::errors::MqttError;
use crate::fixed_header::{body_fits, spec_packet_bytes, write_packet, DISCONNECT_PACKET};
use crate::primitives::{parse_u8, write_bytes, write_u8, ByteReader};
use crate::properties::{
    lemma_property_set_round_trip, parse_property_set, property_set_fits, spec_property_set_bytes,
    PropertyView, VariableHeaderProperties,
};

verus! {

/// The client closed the session normally.
pub const DISCONNECT_NORMAL: u8 = 0x00;

/// A DISCONNECT packet.
#[derive(Debug)]
pub struct Disconnect {
    pub reason_code: u8,
    pub properties: VariableHeaderProperties,
}

/// The mathematical model of a DISCONNECT.
#[verifier::ext_equal]
pub struct DisconnectView {
    pub reason_code: u8,
    pub properties: Seq<PropertyView>,
}

impl View for Disconnect {
    type V = DisconnectView;

    open spec fn view(&self) -> DisconnectView {
        DisconnectView { reason_code: self.reason_code, properties: self.properties@ }
    }
}

/// Body of a DISCONNECT: empty for the normal reason with no
/// properties, else the reason code then the properties.
pub open spec fn spec_disconnect_body(v: DisconnectView) -> Seq<u8> {
    if v.reason_code == 0 && v.properties.len() == 0 {
        Seq::empty()
    } else {
        seq![v.reason_code] + spec_property_set_bytes(v.properties)
    }
}

/// A whole DISCONNECT packet.
pub open spec fn spec_disconnect_packet_bytes(v: DisconnectView) -> Seq<u8> {
    spec_packet_bytes(DISCONNECT_PACKET, spec_disconnect_body(v))
}

/// Whether a DISCONNECT can be framed.
pub open spec fn disconnect_fits(v: DisconnectView) -> bool {
    property_set_fits(v.properties) && body_fits(spec_disconnect_body(v))
}

/// Read a DISCONNECT body, consuming it exactly.
pub open spec fn parse_disconnect_body(s: Seq<u8>) -> Option<DisconnectView> {
    if s.len() == 0 {
        Some(DisconnectView { reason_code: 0, properties: Seq::empty() })
    } else {
        match parse_u8(s) {
            Some((rc, r1)) => match parse_property_set(r1) {
                Some((ps, rest)) => if rest.len() == 0 {
                    Some(DisconnectView { reason_code: rc, properties: ps })
                } else {
                    None
                },
                None => None,
            },
            None => None,
        }
    }
}

/// Decoding an encoded DISCONNECT body yields the packet back.
pub proof fn lemma_disconnect_round_trip(v: DisconnectView)
    requires
        disconnect_fits(v),
    ensures
        parse_disconnect_body(spec_disconnect_body(v)) == Some(v),
{
    if v.reason_code == 0 && v.properties.len() == 0 {
        assert(parse_disconnect_body(spec_disconnect_body(v)) == Some(
            DisconnectView { reason_code: 0, properties: Seq::empty() },
        ));
        assert(DisconnectView { reason_code: 0, properties: Seq::<PropertyView>::empty() } =~= v);
    } else {
        let pset = spec_property_set_bytes(v.properties);
        let s = spec_disconnect_body(v);
        assert(s[0] == v.reason_code);
        assert(s.skip(1) =~= pset);
        assert(pset + Seq::<u8>::empty() =~= pset);
        lemma_property_set_round_trip(v.properties, Seq::<u8>::empty());
        assert(parse_disconnect_body(s) == Some(
            DisconnectView { reason_code: v.reason_code, properties: v.properties },
        ));
        assert(DisconnectView { reason_code: v.reason_code, properties: v.properties } =~= v);
    }
}

impl Disconnect {
    /// Serialise the packet, fixed header included.
    pub fn write_to(&self, out: &mut Vec<u8>) -> (r: Result<(), MqttError>)
        ensures
            if disconnect_fits(self@) {
                r == Ok::<(), MqttError>(()) && final(out)@ == old(out)@
                    + spec_disconnect_packet_bytes(self@)
            } else {
                r == Err::<(), MqttError>(MqttError::BadArgument) && final(out)@ == old(out)@
            },
    {
        let mut body: Vec<u8> = Vec::new();
        if !(self.reason_code == 0 && self.properties.properties.len() == 0) {
            let pset = match self.properties.as_bytes() {
                Ok(b) => b,
                Err(_) => {
                    return Err(MqttError::BadArgument);
                },
            };
            write_u8(&mut body, self.reason_code);
            write_bytes(&mut body, pset.as_slice());
            assert(body@ =~= spec_disconnect_body(self@));
        } else {
            assert(self@.properties.len() == 0);
        }
        write_packet(out, DISCONNECT_PACKET, &body)
    }

    /// Decode a DISCONNECT body of `remaining_length` bytes, the fixed
    /// header already read.
    pub fn read_from(reader: &mut ByteReader, remaining_length: u32) -> (r: Result<
        Disconnect,
        MqttError,
    >)
        requires
            old(reader).wf(),
        ensures
            final(reader).wf(),
            final(reader).data == old(reader).data,
            old(reader).remaining().len() < remaining_length ==> r == Err::<Disconnect, MqttError>(
                MqttError::Malformed,
            ) && *final(reader) == *old(reader),
            old(reader).remaining().len() >= remaining_length ==> {
                &&& final(reader).remaining() == old(reader).remaining().skip(
                    remaining_length as int,
                )
                &&& match parse_disconnect_body(
                    old(reader).remaining().take(remaining_length as int),
                ) {
                    Some(v) => r matches Ok(p) && p@ == v,
                    None => r == Err::<Disconnect, MqttError>(MqttError::Malformed),
                }
            },
    {
        let body = match reader.take(remaining_length as usize) {
            Ok(b) => b,
            Err(_) => {
                return Err(MqttError::Malformed);
            },
        };
        if body.len() == 0 {
            return Ok(Disconnect { reason_code: 0, properties: VariableHeaderProperties::new() });
        }
        let mut br = ByteReader::new(body);
        let reason_code = match br.read_u8() {
            Ok(c) => c,
            Err(_) => {
                return Err(MqttError::Malformed);
            },
        };
        let properties = match VariableHeaderProperties::read_from(&mut br) {
            Ok(p) => p,
            Err(_) => {
                return Err(MqttError::Malformed);
            },
        };
        if !br.at_end() {
            return Err(MqttError::Malformed);
        }
        Ok(Disconnect { reason_code, properties })
    }
}

} // verus!
