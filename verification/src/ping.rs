//! PINGREQ and PINGRESP: header-only packets with remaining length
//! zero, exchanged to refresh the keep-alive window.

use vstd::prelude::*;
use crate::errors::MqttError;
use crate::fixed_header::{spec_packet_bytes, write_packet, PINGREQ_PACKET, PINGRESP_PACKET};
use crate::primitives::ByteReader;

verus! {

/// A PINGREQ packet; it carries nothing.
#[derive(Debug, PartialEq, Eq, Structural, Clone, Copy)]
pub struct PingReq {}

/// A PINGRESP packet; it carries nothing.
#[derive(Debug, PartialEq, Eq, Structural, Clone, Copy)]
pub struct PingResp {}

/// A whole PINGREQ packet: its header over an empty body.
pub open spec fn spec_pingreq_packet_bytes() -> Seq<u8> {
    spec_packet_bytes(PINGREQ_PACKET, Seq::empty())
}

/// A whole PINGRESP packet: its header over an empty body.
pub open spec fn spec_pingresp_packet_bytes() -> Seq<u8> {
    spec_packet_bytes(PINGRESP_PACKET, Seq::empty())
}

impl PingReq {
    /// Serialise the packet: two bytes, type then zero length.
    pub fn write_to(&self, out: &mut Vec<u8>) -> (r: Result<(), MqttError>)
        ensures
            r == Ok::<(), MqttError>(()),
            final(out)@ == old(out)@ + spec_pingreq_packet_bytes(),
    {
        let body: Vec<u8> = Vec::new();
        write_packet(out, PINGREQ_PACKET, &body)
    }

    /// Decode a PINGREQ body: nothing to read; a non-zero remaining
    /// length is `Malformed`.
    pub fn read_from(reader: &mut ByteReader, remaining_length: u32) -> (r: Result<
        PingReq,
        MqttError,
    >)
        requires
            old(reader).wf(),
        ensures
            final(reader).wf(),
            *final(reader) == *old(reader),
            if remaining_length == 0 {
                r == Ok::<PingReq, MqttError>(PingReq {})
            } else {
                r == Err::<PingReq, MqttError>(MqttError::Malformed)
            },
    {
        if remaining_length == 0 {
            Ok(PingReq {})
        } else {
            Err(MqttError::Malformed)
        }
    }
}

impl PingResp {
    /// Serialise the packet: two bytes, type then zero length.
    pub fn write_to(&self, out: &mut Vec<u8>) -> (r: Result<(), MqttError>)
        ensures
            r == Ok::<(), MqttError>(()),
            final(out)@ == old(out)@ + spec_pingresp_packet_bytes(),
    {
        let body: Vec<u8> = Vec::new();
        write_packet(out, PINGRESP_PACKET, &body)
    }

    /// Decode a PINGRESP body: nothing to read; a non-zero remaining
    /// length is `Malformed`.
    pub fn read_from(reader: &mut ByteReader, remaining_length: u32) -> (r: Result<
        PingResp,
        MqttError,
    >)
        requires
            old(reader).wf(),
        ensures
            final(reader).wf(),
            *final(reader) == *old(reader),
            if remaining_length == 0 {
                r == Ok::<PingResp, MqttError>(PingResp {})
            } else {
                r == Err::<PingResp, MqttError>(MqttError::Malformed)
            },
    {
        if remaining_length == 0 {
            Ok(PingResp {})
        } else {
            Err(MqttError::Malformed)
        }
    }
}

} // verus!
