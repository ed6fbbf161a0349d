//! CONNACK: the broker's reply to CONNECT. Variable header only:
//! acknowledge flags (bit 0 is session-present, the rest reserved
//! zero), the connect reason code, then properties.

use vstd::prelude::*;
use crate::connect::Connect;
use crate::errors::MqttError;
use crate::fixed_header::{body_fits, spec_packet_bytes, write_packet, CONNACK_PACKET};
use crate::primitives::{parse_u8, write_bytes, write_u8, ByteReader};
use crate::properties::{
    parse_property_set, property_set_fits, spec_property_set_bytes, PropertyView,
    VariableHeaderProperties,
};

verus! {

/// The broker accepted the connection.
pub const REASON_SUCCESS: u8 = 0x00;

/// Smallest reason code that reports a failure.
pub const REASON_FAILURE_FLOOR: u8 = 0x80;

/// A CONNACK packet.
#[derive(Debug)]
pub struct Connack {
    pub session_present: bool,
    pub reason_code: u8,
    pub properties: VariableHeaderProperties,
}

/// The mathematical model of a CONNACK.
#[verifier::ext_equal]
pub struct ConnackView {
    pub session_present: bool,
    pub reason_code: u8,
    pub properties: Seq<PropertyView>,
}

impl View for Connack {
    type V = ConnackView;

    open spec fn view(&self) -> ConnackView {
        ConnackView {
            session_present: self.session_present,
            reason_code: self.reason_code,
            properties: self.properties@,
        }
    }
}

/// Body of a CONNACK: acknowledge flags, reason code, properties.
pub open spec fn spec_connack_body(v: ConnackView) -> Seq<u8> {
    seq![
        if v.session_present {
            1u8
        } else {
            0u8
        },
        v.reason_code,
    ] + spec_property_set_bytes(v.properties)
}

/// A whole CONNACK packet.
pub open spec fn spec_connack_packet_bytes(v: ConnackView) -> Seq<u8> {
    spec_packet_bytes(CONNACK_PACKET, spec_connack_body(v))
}

/// Whether a CONNACK can be framed.
pub open spec fn connack_fits(v: ConnackView) -> bool {
    property_set_fits(v.properties) && body_fits(spec_connack_body(v))
}

/// Read a CONNACK body, consuming it exactly. Reserved acknowledge
/// bits must be zero.
pub open spec fn parse_connack_body(s: Seq<u8>) -> Option<ConnackView> {
    match parse_u8(s) {
        Some((ack, r1)) => if ack <= 1 {
            match parse_u8(r1) {
                Some((rc, r2)) => match parse_property_set(r2) {
                    Some((ps, rest)) => if rest.len() == 0 {
                        Some(
                            ConnackView {
                                session_present: ack == 1,
                                reason_code: rc,
                                properties: ps,
                            },
                        )
                    } else {
                        None
                    },
                    None => None,
                },
                None => None,
            }
        } else {
            None
        },
        None => None,
    }
}

/// Decoding an encoded CONNACK body yields the packet back.
pub proof fn lemma_connack_round_trip(v: ConnackView)
    requires
        connack_fits(v),
    ensures
        parse_connack_body(spec_connack_body(v)) == Some(v),
{
    let a: u8 = if v.session_present {
        1u8
    } else {
        0u8
    };
    let s = spec_connack_body(v);
    let pset = spec_property_set_bytes(v.properties);
    assert(s[0] == a);
    assert(s.skip(1) =~= seq![v.reason_code] + pset);
    assert((seq![v.reason_code] + pset).skip(1) =~= pset);
    assert(pset + Seq::<u8>::empty() =~= pset);
    crate::properties::lemma_property_set_round_trip(v.properties, Seq::<u8>::empty());
    assert(parse_connack_body(s) == Some(
        ConnackView { session_present: a == 1, reason_code: v.reason_code, properties: v.properties },
    ));
    assert(ConnackView {
        session_present: a == 1,
        reason_code: v.reason_code,
        properties: v.properties,
    } =~= v);
}

impl Connack {
    /// Serialise the packet, fixed header included; `BadArgument`
    /// exactly when a property does not fit or the body outgrows the
    /// length field.
    pub fn write_to(&self, out: &mut Vec<u8>) -> (r: Result<(), MqttError>)
        ensures
            if connack_fits(self@) {
                r == Ok::<(), MqttError>(()) && final(out)@ == old(out)@
                    + spec_connack_packet_bytes(self@)
            } else {
                r == Err::<(), MqttError>(MqttError::BadArgument) && final(out)@ == old(out)@
            },
    {
        let pset = match self.properties.as_bytes() {
            Ok(b) => b,
            Err(_) => {
                return Err(MqttError::BadArgument);
            },
        };
        let mut body: Vec<u8> = Vec::new();
        write_u8(&mut body, if self.session_present { 1 } else { 0 });
        write_u8(&mut body, self.reason_code);
        write_bytes(&mut body, pset.as_slice());
        assert(body@ =~= spec_connack_body(self@));
        write_packet(out, CONNACK_PACKET, &body)
    }

    /// Decode a CONNACK body of `remaining_length` bytes, the fixed
    /// header already read. `Malformed` exactly when the bytes run out
    /// or the body does not parse to its end.
    pub fn read_from(reader: &mut ByteReader, remaining_length: u32) -> (r: Result<
        Connack,
        MqttError,
    >)
        requires
            old(reader).wf(),
        ensures
            final(reader).wf(),
            final(reader).data == old(reader).data,
            old(reader).remaining().len() < remaining_length ==> r == Err::<Connack, MqttError>(
                MqttError::Malformed,
            ) && *final(reader) == *old(reader),
            old(reader).remaining().len() >= remaining_length ==> {
                &&& final(reader).remaining() == old(reader).remaining().skip(
                    remaining_length as int,
                )
                &&& match parse_connack_body(
                    old(reader).remaining().take(remaining_length as int),
                ) {
                    Some(v) => r matches Ok(p) && p@ == v,
                    None => r == Err::<Connack, MqttError>(MqttError::Malformed),
                }
            },
    {
        let body = match reader.take(remaining_length as usize) {
            Ok(b) => b,
            Err(_) => {
                return Err(MqttError::Malformed);
            },
        };
        let mut br = ByteReader::new(body);
        let ack = match br.read_u8() {
            Ok(a) => a,
            Err(_) => {
                return Err(MqttError::Malformed);
            },
        };
        if ack > 1 {
            return Err(MqttError::Malformed);
        }
        let reason_code = match br.read_u8() {
            Ok(c) => c,
            Err(_) => {
                return Err(MqttError::Malformed);
            },
        };
        let properties = match VariableHeaderProperties::read_from(&mut br) {
            Ok(p) => p,
            Err(_) => {
                return Err(MqttError::Malformed);
            },
        };
        if !br.at_end() {
            return Err(MqttError::Malformed);
        }
        Ok(Connack { session_present: ack == 1, reason_code, properties })
    }

    /// Whether the reason code reports success.
    pub fn is_success(&self) -> (b: bool)
        ensures
            b == (self@.reason_code < REASON_FAILURE_FLOOR),
    {
        self.reason_code < REASON_FAILURE_FLOOR
    }

    /// Build the broker-side answer to a CONNECT: success, session
    /// present, and the demo broker's fixed advertisement properties.
    pub fn new(connect_packet: Connect) -> (r: Connack)
        ensures
            r@.session_present == true,
            r@.reason_code == REASON_SUCCESS,
            r@.properties == seq![
                PropertyView::SessionExpiryInterval(500),
                PropertyView::AssignedClientIdentifier("client"@),
                PropertyView::ServerKeepAlive(10),
                PropertyView::AuthenticationMethod("password"@),
                PropertyView::AuthenticationData(seq![0u8, 1u8]),
                PropertyView::ResponseInformation("response"@),
                PropertyView::ServerReference("reference"@),
                PropertyView::ReasonString("reason"@),
                PropertyView::ReceiveMaximum(10),
                PropertyView::TopicAliasMaximum(0),
                PropertyView::MaximumQos(2),
                PropertyView::RetainAvailable(1),
                PropertyView::UserProperty("key"@, "value"@),
                PropertyView::MaximumPacketSize(100),
                PropertyView::WildcardSubscriptionAvailable(1),
                PropertyView::SubscriptionIdentifiersAvailable(1),
                PropertyView::SharedSubscriptionAvailable(1),
            ],
    {
        let mut prop = VariableHeaderProperties::new();
        prop.add_property_session_expiry_interval(500);
        prop.add_property_assigned_client_identifier("client".to_owned());
        prop.add_property_server_keep_alive(10);
        prop.add_property_authentication_method("password".to_owned());
        let mut auth_data: Vec<u8> = Vec::new();
        auth_data.push(0);
        auth_data.push(1);
        assert(auth_data@ =~= seq![0u8, 1u8]);
        prop.add_property_authentication_data(auth_data);
        prop.add_property_response_information("response".to_owned());
        prop.add_property_server_reference("reference".to_owned());
        prop.add_property_reason_string("reason".to_owned());
        prop.add_property_receive_maximum(10);
        prop.add_property_topic_alias_maximum(0);
        prop.add_property_maximum_qos(2);
        prop.add_property_retain_available(1);
        prop.add_property_user_property("key".to_owned(), "value".to_owned());
        prop.add_property_maximum_packet_size(100);
        prop.add_property_wildcard_subscription_available(1);
        prop.add_property_subscription_identifiers_available(1);
        prop.add_property_shared_subscription_available(1);
        let connect_reason_code = determinate_reason_code(connect_packet);
        let connect_acknowledge_flags = create_connect_acknowledge_flags(1);
        let r = Connack {
            session_present: connect_acknowledge_flags == 1,
            reason_code: connect_reason_code,
            properties: prop,
        };
        assert(r@.properties =~= seq![
            PropertyView::SessionExpiryInterval(500),
            PropertyView::AssignedClientIdentifier("client"@),
            PropertyView::ServerKeepAlive(10),
            PropertyView::AuthenticationMethod("password"@),
            PropertyView::AuthenticationData(seq![0u8, 1u8]),
            PropertyView::ResponseInformation("response"@),
            PropertyView::ServerReference("reference"@),
            PropertyView::ReasonString("reason"@),
            PropertyView::ReceiveMaximum(10),
            PropertyView::TopicAliasMaximum(0),
            PropertyView::MaximumQos(2),
            PropertyView::RetainAvailable(1),
            PropertyView::UserProperty("key"@, "value"@),
            PropertyView::MaximumPacketSize(100),
            PropertyView::WildcardSubscriptionAvailable(1),
            PropertyView::SubscriptionIdentifiersAvailable(1),
            PropertyView::SharedSubscriptionAvailable(1),
        ]);
        r
    }
}

/// The reason code for an incoming CONNECT: the demo broker accepts
/// every client.
pub fn determinate_reason_code(_connect_packet: Connect) -> (r: u8)
    ensures
        r == REASON_SUCCESS,
{
    REASON_SUCCESS
}

/// The acknowledge-flags byte: only bit 0, the session-present flag,
/// may be set.
pub fn create_connect_acknowledge_flags(session_present_flag: u8) -> (r: u8)
    requires
        session_present_flag <= 1,
    ensures
        r == session_present_flag,
{
    let mut connect_acknowledge_flags: u8 = 0;
    connect_acknowledge_flags = connect_acknowledge_flags + session_present_flag;
    connect_acknowledge_flags
}

} // verus!
