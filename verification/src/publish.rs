//! PUBLISH: the application message. DUP, QoS and RETAIN travel in
//! the fixed-header flag bits; the variable header is the topic name,
//! the packet identifier (present exactly when the QoS is above zero)
//! and the properties; the payload is the raw application bytes
//! filling the rest of the remaining length.

use vstd::prelude::*;
use crate::errors::MqttError;
use crate::fixed_header::{
    body_fits, spec_packet_bytes, spec_publish_first_byte, write_packet,
};
use crate::primitives::{
    lemma_string_round_trip, lemma_u16_round_trip, parse_string, parse_u16_be, spec_string_bytes,
    spec_u16_be, string_fits, write_bytes, write_string, write_u16_be, ByteReader,
};
use crate::properties::{
    lemma_property_set_round_trip, parse_property_set, property_set_fits, spec_property_set_bytes,
    PropertyView, VariableHeaderProperties,
};

verus! {

/// A PUBLISH packet.
#[derive(Debug)]
pub struct Publish {
    pub dup: bool,
    pub qos: u8,
    pub retain: bool,
    pub topic_name: String,
    pub packet_identifier: u16,
    pub properties: VariableHeaderProperties,
    pub application_message: Vec<u8>,
}

/// The mathematical model of a PUBLISH.
#[verifier::ext_equal]
pub struct PublishView {
    pub dup: bool,
    pub qos: u8,
    pub retain: bool,
    pub topic_name: Seq<char>,
    pub packet_identifier: u16,
    pub properties: Seq<PropertyView>,
    pub application_message: Seq<u8>,
}

impl View for Publish {
    type V = PublishView;

    open spec fn view(&self) -> PublishView {
        PublishView {
            dup: self.dup,
            qos: self.qos,
            retain: self.retain,
            topic_name: self.topic_name@,
            packet_identifier: self.packet_identifier,
            properties: self.properties@,
            application_message: self.application_message@,
        }
    }
}

/// Body of a PUBLISH: topic, packet identifier when QoS is above
/// zero, properties, then the payload bytes.
pub open spec fn spec_publish_body(v: PublishView) -> Seq<u8> {
    spec_string_bytes(v.topic_name) + (if v.qos > 0 {
        spec_u16_be(v.packet_identifier)
    } else {
        Seq::empty()
    }) + spec_property_set_bytes(v.properties) + v.application_message
}

/// A whole PUBLISH packet; the flags ride in the first byte.
pub open spec fn spec_publish_packet_bytes(v: PublishView) -> Seq<u8> {
    spec_packet_bytes(spec_publish_first_byte(v.dup, v.qos, v.retain), spec_publish_body(v))
}

/// Whether a PUBLISH can be framed.
pub open spec fn publish_fits(v: PublishView) -> bool {
    &&& v.qos <= 2
    &&& string_fits(v.topic_name)
    &&& property_set_fits(v.properties)
    &&& body_fits(spec_publish_body(v))
}

/// Read a PUBLISH body, the flags taken from the first byte of the
/// fixed header; the payload is everything after the properties. A
/// QoS field of 3 is malformed; a QoS-0 packet carries no identifier
/// and reads back with identifier 0.
pub open spec fn parse_publish_body(first: u8, s: Seq<u8>) -> Option<PublishView> {
    let dup = (first / 8) % 2 == 1;
    let qos = (first / 2) % 4;
    let retain = first % 2 == 1;
    if first / 16 != 3 || qos == 3 {
        None
    } else {
        match parse_string(s) {
            Some((topic, r1)) => if qos > 0 {
                match parse_u16_be(r1) {
                    Some((pid, r2)) => match parse_property_set(r2) {
                        Some((ps, payload)) => Some(
                            PublishView {
                                dup,
                                qos,
                                retain,
                                topic_name: topic,
                                packet_identifier: pid,
                                properties: ps,
                                application_message: payload,
                            },
                        ),
                        None => None,
                    },
                    None => None,
                }
            } else {
                match parse_property_set(r1) {
                    Some((ps, payload)) => Some(
                        PublishView {
                            dup,
                            qos,
                            retain,
                            topic_name: topic,
                            packet_identifier: 0,
                            properties: ps,
                            application_message: payload,
                        },
                    ),
                    None => None,
                }
            },
            None => None,
        }
    }
}

/// The flag bits come back out of the first byte.
proof fn lemma_publish_flags_round_trip(dup: bool, qos: u8, retain: bool)
    requires
        qos <= 2,
    ensures
        ({
            let b = spec_publish_first_byte(dup, qos, retain);
            &&& b / 16 == 3
            &&& ((b / 8) % 2 == 1) == dup
            &&& (b / 2) % 4 == qos
            &&& (b % 2 == 1) == retain
        }),
{
}

/// Decoding an encoded PUBLISH yields the packet back; a QoS-0 packet
/// must carry identifier 0, since none travels on the wire.
pub proof fn lemma_publish_round_trip(v: PublishView)
    requires
        publish_fits(v),
        v.qos == 0 ==> v.packet_identifier == 0,
    ensures
        parse_publish_body(spec_publish_first_byte(v.dup, v.qos, v.retain), spec_publish_body(v))
            == Some(v),
{
    lemma_publish_flags_round_trip(v.dup, v.qos, v.retain);
    let s = spec_publish_body(v);
    let pset = spec_property_set_bytes(v.properties);
    if v.qos > 0 {
        let rest1 = spec_u16_be(v.packet_identifier) + (pset + v.application_message);
        assert(s =~= spec_string_bytes(v.topic_name) + rest1);
        lemma_string_round_trip(v.topic_name, rest1);
        lemma_u16_round_trip(v.packet_identifier, pset + v.application_message);
        lemma_property_set_round_trip(v.properties, v.application_message);
        assert(parse_publish_body(
            spec_publish_first_byte(v.dup, v.qos, v.retain),
            s,
        ) matches Some(got) && got =~= v);
    } else {
        let rest1 = pset + v.application_message;
        assert(s =~= spec_string_bytes(v.topic_name) + rest1);
        lemma_string_round_trip(v.topic_name, rest1);
        lemma_property_set_round_trip(v.properties, v.application_message);
        assert(parse_publish_body(
            spec_publish_first_byte(v.dup, v.qos, v.retain),
            s,
        ) matches Some(got) && got =~= v);
    }
}

impl Publish {
    /// Assemble a PUBLISH from its fields.
    pub fn new(
        dup: bool,
        qos: u8,
        retain: bool,
        topic_name: String,
        packet_identifier: u16,
        properties: VariableHeaderProperties,
        application_message: Vec<u8>,
    ) -> (r: Publish)
        ensures
            r@ == (PublishView {
                dup,
                qos,
                retain,
                topic_name: topic_name@,
                packet_identifier,
                properties: properties@,
                application_message: application_message@,
            }),
    {
        Publish { dup, qos, retain, topic_name, packet_identifier, properties, application_message }
    }

    /// Serialise the packet, fixed header included; the identifier is
    /// left off the wire when the QoS is zero.
    pub fn write_to(&self, out: &mut Vec<u8>) -> (r: Result<(), MqttError>)
        ensures
            if publish_fits(self@) {
                r == Ok::<(), MqttError>(()) && final(out)@ == old(out)@
                    + spec_publish_packet_bytes(self@)
            } else {
                r == Err::<(), MqttError>(MqttError::BadArgument) && final(out)@ == old(out)@
            },
    {
        if self.qos > 2 {
            return Err(MqttError::BadArgument);
        }
        let pset = match self.properties.as_bytes() {
            Ok(b) => b,
            Err(_) => {
                return Err(MqttError::BadArgument);
            },
        };
        let mut body: Vec<u8> = Vec::new();
        match write_string(&mut body, self.topic_name.as_str()) {
            Ok(()) => {},
            Err(_) => {
                return Err(MqttError::BadArgument);
            },
        }
        if self.qos > 0 {
            write_u16_be(&mut body, self.packet_identifier);
        }
        write_bytes(&mut body, pset.as_slice());
        write_bytes(&mut body, self.application_message.as_slice());
        assert(body@ =~= spec_publish_body(self@));
        let first = 0x30 + (if self.dup { 8u8 } else { 0u8 }) + self.qos * 2 + (if self.retain {
            1u8
        } else {
            0u8
        });
        assert(first == spec_publish_first_byte(self@.dup, self@.qos, self@.retain));
        write_packet(out, first, &body)
    }

    /// Decode a PUBLISH body of `remaining_length` bytes, the fixed
    /// header (whose first byte carries the flags) already read.
    pub fn read_from(reader: &mut ByteReader, first: u8, remaining_length: u32) -> (r: Result<
        Publish,
        MqttError,
    >)
        requires
            old(reader).wf(),
        ensures
            final(reader).wf(),
            final(reader).data == old(reader).data,
            old(reader).remaining().len() < remaining_length ==> r == Err::<Publish, MqttError>(
                MqttError::Malformed,
            ) && *final(reader) == *old(reader),
            old(reader).remaining().len() >= remaining_length ==> {
                &&& final(reader).remaining() == old(reader).remaining().skip(
                    remaining_length as int,
                )
                &&& match parse_publish_body(
                    first,
                    old(reader).remaining().take(remaining_length as int),
                ) {
                    Some(v) => r matches Ok(p) && p@ == v,
                    None => r == Err::<Publish, MqttError>(MqttError::Malformed),
                }
            },
    {
        let body = match reader.take(remaining_length as usize) {
            Ok(b) => b,
            Err(_) => {
                return Err(MqttError::Malformed);
            },
        };
        let dup = (first / 8) % 2 == 1;
        let qos = (first / 2) % 4;
        let retain = first % 2 == 1;
        if first / 16 != 3 || qos == 3 {
            return Err(MqttError::Malformed);
        }
        let mut br = ByteReader::new(body);
        let topic_name = match br.read_string() {
            Ok(t) => t,
            Err(_) => {
                return Err(MqttError::Malformed);
            },
        };
        let packet_identifier: u16 = if qos > 0 {
            match br.read_u16() {
                Ok(p) => p,
                Err(_) => {
                    return Err(MqttError::Malformed);
                },
            }
        } else {
            0
        };
        let properties = match VariableHeaderProperties::read_from(&mut br) {
            Ok(p) => p,
            Err(_) => {
                return Err(MqttError::Malformed);
            },
        };
        let n = br.remaining_len();
        let application_message = match br.take(n) {
            Ok(m) => m,
            Err(_) => {
                return Err(MqttError::Malformed);
            },
        };
        Ok(Publish { dup, qos, retain, topic_name, packet_identifier, properties,
            application_message })
    }
}

} // verus!
