//! The packet sum type: dispatch from the fixed header's type nibble
//! to the body decoder, and the whole-wire round-trip law tying every
//! encoder to the reader.

use vstd::prelude::*;
use crate::acks::{
    ack_fits, lemma_ack_round_trip, parse_ack_body, spec_ack_body, spec_puback_packet_bytes,
    spec_unsuback_packet_bytes, Puback, PubackView, Unsuback, UnsubackView,
};
use crate::connack::{
    connack_fits, lemma_connack_round_trip, parse_connack_body, spec_connack_packet_bytes, Connack,
    ConnackView,
};
use crate::connect::{
    connect_fits, lemma_connect_round_trip, parse_connect_body, spec_connect_packet_bytes, Connect,
    ConnectView,
};
use crate::disconnect::{
    disconnect_fits, lemma_disconnect_round_trip, parse_disconnect_body,
    spec_disconnect_packet_bytes, Disconnect, DisconnectView,
};
use crate::errors::MqttError;
use crate::fixed_header::{
    lemma_fixed_header_round_trip, parse_fixed_header, spec_packet_bytes, PacketFixedHeader,
    CONNACK_PACKET, CONNECT_PACKET, DISCONNECT_PACKET, PINGREQ_PACKET, PINGRESP_PACKET,
    PUBACK_PACKET, SUBACK_PACKET, SUBSCRIBE_PACKET, UNSUBACK_PACKET, UNSUBSCRIBE_PACKET,
};
use crate::ping::{
    spec_pingreq_packet_bytes, spec_pingresp_packet_bytes, PingReq, PingResp,
};
use crate::primitives::ByteReader;
use crate::fixed_header::spec_publish_first_byte;
use crate::publish::{
    lemma_publish_round_trip, parse_publish_body, publish_fits, spec_publish_body,
    spec_publish_packet_bytes, Publish, PublishView,
};
use crate::suback::{
    lemma_suback_round_trip, parse_suback_body, spec_suback_body, spec_suback_packet_bytes,
    suback_fits, Suback, SubackView,
};
use crate::subscribe::{
    lemma_subscribe_round_trip, parse_subscribe_body, spec_subscribe_body,
    spec_subscribe_packet_bytes, subscribe_fits, SubscribeView, _Subscribe,
};
use crate::unsubscribe::{
    lemma_unsubscribe_round_trip, parse_unsubscribe_body, spec_unsubscribe_body,
    spec_unsubscribe_packet_bytes, unsubscribe_fits, Unsubscribe, UnsubscribeView,
};

verus! {

/// The packet-type tag carried by the fixed header's high nibble.
#[derive(Debug, PartialEq, Eq, Structural, Clone, Copy)]
pub enum PacketType {
    Connect,
    Connack,
    Publish,
    Puback,
    Subscribe,
    Suback,
    Unsubscribe,
    Unsuback,
    PingReq,
    PingResp,
    Disconnect,
    Unknown,
}

/// The tag a first byte names.
pub open spec fn spec_packet_type_of(first: u8) -> PacketType {
    let t = first / 16;
    if t == 1 {
        PacketType::Connect
    } else if t == 2 {
        PacketType::Connack
    } else if t == 3 {
        PacketType::Publish
    } else if t == 4 {
        PacketType::Puback
    } else if t == 8 {
        PacketType::Subscribe
    } else if t == 9 {
        PacketType::Suback
    } else if t == 10 {
        PacketType::Unsubscribe
    } else if t == 11 {
        PacketType::Unsuback
    } else if t == 12 {
        PacketType::PingReq
    } else if t == 13 {
        PacketType::PingResp
    } else if t == 14 {
        PacketType::Disconnect
    } else {
        PacketType::Unknown
    }
}

impl PacketFixedHeader {
    /// The tag this header names.
    pub fn get_package_type(&self) -> (t: PacketType)
        ensures
            t == spec_packet_type_of(self.packet_type),
    {
        let n = self.packet_type / 16;
        if n == 1 {
            PacketType::Connect
        } else if n == 2 {
            PacketType::Connack
        } else if n == 3 {
            PacketType::Publish
        } else if n == 4 {
            PacketType::Puback
        } else if n == 8 {
            PacketType::Subscribe
        } else if n == 9 {
            PacketType::Suback
        } else if n == 10 {
            PacketType::Unsubscribe
        } else if n == 11 {
            PacketType::Unsuback
        } else if n == 12 {
            PacketType::PingReq
        } else if n == 13 {
            PacketType::PingResp
        } else if n == 14 {
            PacketType::Disconnect
        } else {
            PacketType::Unknown
        }
    }
}

impl Connect {
    /// The tag of this packet kind.
    pub fn packet_kind(&self) -> (t: PacketType)
        ensures
            t == PacketType::Connect,
    {
        PacketType::Connect
    }
}

impl Connack {
    /// The tag of this packet kind.
    pub fn packet_kind(&self) -> (t: PacketType)
        ensures
            t == PacketType::Connack,
    {
        PacketType::Connack
    }
}

impl Publish {
    /// The tag of this packet kind.
    pub fn packet_kind(&self) -> (t: PacketType)
        ensures
            t == PacketType::Publish,
    {
        PacketType::Publish
    }
}

impl Puback {
    /// The tag of this packet kind.
    pub fn packet_kind(&self) -> (t: PacketType)
        ensures
            t == PacketType::Puback,
    {
        PacketType::Puback
    }
}

impl _Subscribe {
    /// The tag of this packet kind.
    pub fn packet_kind(&self) -> (t: PacketType)
        ensures
            t == PacketType::Subscribe,
    {
        PacketType::Subscribe
    }
}

impl Suback {
    /// The tag of this packet kind.
    pub fn packet_kind(&self) -> (t: PacketType)
        ensures
            t == PacketType::Suback,
    {
        PacketType::Suback
    }
}

impl Unsubscribe {
    /// The tag of this packet kind.
    pub fn packet_kind(&self) -> (t: PacketType)
        ensures
            t == PacketType::Unsubscribe,
    {
        PacketType::Unsubscribe
    }
}

impl Unsuback {
    /// The tag of this packet kind.
    pub fn packet_kind(&self) -> (t: PacketType)
        ensures
            t == PacketType::Unsuback,
    {
        PacketType::Unsuback
    }
}

impl PingReq {
    /// The tag of this packet kind.
    pub fn packet_kind(&self) -> (t: PacketType)
        ensures
            t == PacketType::PingReq,
    {
        PacketType::PingReq
    }
}

impl PingResp {
    /// The tag of this packet kind.
    pub fn packet_kind(&self) -> (t: PacketType)
        ensures
            t == PacketType::PingResp,
    {
        PacketType::PingResp
    }
}

impl Disconnect {
    /// The tag of this packet kind.
    pub fn packet_kind(&self) -> (t: PacketType)
        ensures
            t == PacketType::Disconnect,
    {
        PacketType::Disconnect
    }
}

/// A decoded packet of any kind.
#[derive(Debug)]
pub enum PacketReceived {
    Connect(Connect),
    Connack(Connack),
    Publish(Publish),
    Puback(Puback),
    Subscribe(_Subscribe),
    Suback(Suback),
    Unsubscribe(Unsubscribe),
    Unsuback(Unsuback),
    PingReq(PingReq),
    PingResp(PingResp),
    Disconnect(Disconnect),
}

/// The mathematical model of a decoded packet.
#[verifier::ext_equal]
pub enum PacketView {
    Connect(ConnectView),
    Connack(ConnackView),
    Publish(PublishView),
    Puback(PubackView),
    Subscribe(SubscribeView),
    Suback(SubackView),
    Unsubscribe(UnsubscribeView),
    Unsuback(UnsubackView),
    PingReq,
    PingResp,
    Disconnect(DisconnectView),
}

impl View for PacketReceived {
    type V = PacketView;

    open spec fn view(&self) -> PacketView {
        match self {
            PacketReceived::Connect(p) => PacketView::Connect(p@),
            PacketReceived::Connack(p) => PacketView::Connack(p@),
            PacketReceived::Publish(p) => PacketView::Publish(p@),
            PacketReceived::Puback(p) => PacketView::Puback(p@),
            PacketReceived::Subscribe(p) => PacketView::Subscribe(p@),
            PacketReceived::Suback(p) => PacketView::Suback(p@),
            PacketReceived::Unsubscribe(p) => PacketView::Unsubscribe(p@),
            PacketReceived::Unsuback(p) => PacketView::Unsuback(p@),
            PacketReceived::PingReq(_) => PacketView::PingReq,
            PacketReceived::PingResp(_) => PacketView::PingResp,
            PacketReceived::Disconnect(p) => PacketView::Disconnect(p@),
        }
    }
}

/// First bytes the reader dispatches on: the exact header byte of
/// each packet kind, or any byte with the PUBLISH type nibble.
pub open spec fn dispatch_known(first: u8) -> bool {
    ||| first == CONNECT_PACKET
    ||| first == CONNACK_PACKET
    ||| first / 16 == 3
    ||| first == PUBACK_PACKET
    ||| first == SUBSCRIBE_PACKET
    ||| first == SUBACK_PACKET
    ||| first == UNSUBSCRIBE_PACKET
    ||| first == UNSUBACK_PACKET
    ||| first == PINGREQ_PACKET
    ||| first == PINGRESP_PACKET
    ||| first == DISCONNECT_PACKET
}

/// Read a packet body of exactly `body`'s length, dispatched by the
/// header's first byte.
pub open spec fn parse_packet_after_header(h: PacketFixedHeader, body: Seq<u8>) -> Option<
    PacketView,
> {
    let first = h.packet_type;
    if first == CONNECT_PACKET {
        match parse_connect_body(body) {
            Some(v) => Some(PacketView::Connect(v)),
            None => None,
        }
    } else if first == CONNACK_PACKET {
        match parse_connack_body(body) {
            Some(v) => Some(PacketView::Connack(v)),
            None => None,
        }
    } else if first / 16 == 3 {
        match parse_publish_body(first, body) {
            Some(v) => Some(PacketView::Publish(v)),
            None => None,
        }
    } else if first == PUBACK_PACKET {
        match parse_ack_body(body) {
            Some((pid, rc, ps)) => Some(
                PacketView::Puback(
                    PubackView { packet_identifier: pid, reason_code: rc, properties: ps },
                ),
            ),
            None => None,
        }
    } else if first == SUBSCRIBE_PACKET {
        match parse_subscribe_body(body) {
            Some(v) => Some(PacketView::Subscribe(v)),
            None => None,
        }
    } else if first == SUBACK_PACKET {
        match parse_suback_body(body) {
            Some(v) => Some(PacketView::Suback(v)),
            None => None,
        }
    } else if first == UNSUBSCRIBE_PACKET {
        match parse_unsubscribe_body(body) {
            Some(v) => Some(PacketView::Unsubscribe(v)),
            None => None,
        }
    } else if first == UNSUBACK_PACKET {
        match parse_ack_body(body) {
            Some((pid, rc, ps)) => Some(
                PacketView::Unsuback(
                    UnsubackView { packet_identifier: pid, reason_code: rc, properties: ps },
                ),
            ),
            None => None,
        }
    } else if first == PINGREQ_PACKET {
        if body.len() == 0 {
            Some(PacketView::PingReq)
        } else {
            None
        }
    } else if first == PINGRESP_PACKET {
        if body.len() == 0 {
            Some(PacketView::PingResp)
        } else {
            None
        }
    } else if first == DISCONNECT_PACKET {
        match parse_disconnect_body(body) {
            Some(v) => Some(PacketView::Disconnect(v)),
            None => None,
        }
    } else {
        None
    }
}

/// Read one whole packet out of exactly the given bytes.
pub open spec fn parse_wire_packet(s: Seq<u8>) -> Option<PacketView> {
    match parse_fixed_header(s) {
        Some((h, rest)) => if rest.len() == h.remaining_length {
            parse_packet_after_header(h, rest)
        } else {
            None
        },
        None => None,
    }
}

/// The wire form of any packet.
pub open spec fn spec_wire_packet_bytes(pv: PacketView) -> Seq<u8> {
    match pv {
        PacketView::Connect(v) => spec_connect_packet_bytes(v),
        PacketView::Connack(v) => spec_connack_packet_bytes(v),
        PacketView::Publish(v) => spec_publish_packet_bytes(v),
        PacketView::Puback(v) => spec_puback_packet_bytes(v),
        PacketView::Subscribe(v) => spec_subscribe_packet_bytes(v),
        PacketView::Suback(v) => spec_suback_packet_bytes(v),
        PacketView::Unsubscribe(v) => spec_unsubscribe_packet_bytes(v),
        PacketView::Unsuback(v) => spec_unsuback_packet_bytes(v),
        PacketView::PingReq => spec_pingreq_packet_bytes(),
        PacketView::PingResp => spec_pingresp_packet_bytes(),
        PacketView::Disconnect(v) => spec_disconnect_packet_bytes(v),
    }
}

/// Whether a packet can be framed; a QoS-0 PUBLISH must carry
/// identifier 0, since none travels on the wire.
pub open spec fn wire_packet_fits(pv: PacketView) -> bool {
    match pv {
        PacketView::Connect(v) => connect_fits(v),
        PacketView::Connack(v) => connack_fits(v),
        PacketView::Publish(v) => publish_fits(v) && (v.qos == 0 ==> v.packet_identifier == 0),
        PacketView::Puback(v) => ack_fits(v.packet_identifier, v.reason_code, v.properties),
        PacketView::Subscribe(v) => subscribe_fits(v),
        PacketView::Suback(v) => suback_fits(v),
        PacketView::Unsubscribe(v) => unsubscribe_fits(v),
        PacketView::Unsuback(v) => ack_fits(v.packet_identifier, v.reason_code, v.properties),
        PacketView::PingReq => true,
        PacketView::PingResp => true,
        PacketView::Disconnect(v) => disconnect_fits(v),
    }
}

/// Every packet decodes back to itself: reading the wire form of any
/// encodable packet yields that packet.
pub proof fn lemma_wire_packet_round_trip(pv: PacketView)
    requires
        wire_packet_fits(pv),
    ensures
        parse_wire_packet(spec_wire_packet_bytes(pv)) == Some(pv),
{
    let s = spec_wire_packet_bytes(pv);
    match pv {
        PacketView::Connect(v) => {
            lemma_header_exact(CONNECT_PACKET, crate::connect::spec_connect_body(v));
            lemma_connect_round_trip(v);
        },
        PacketView::Connack(v) => {
            lemma_header_exact(CONNACK_PACKET, crate::connack::spec_connack_body(v));
            lemma_connack_round_trip(v);
        },
        PacketView::Publish(v) => {
            let first = spec_publish_first_byte(v.dup, v.qos, v.retain);
            lemma_header_exact(first, spec_publish_body(v));
            assert(first / 16 == 3 && first != CONNECT_PACKET && first != CONNACK_PACKET);
            lemma_publish_round_trip(v);
        },
        PacketView::Puback(v) => {
            lemma_header_exact(
                PUBACK_PACKET,
                spec_ack_body(v.packet_identifier, v.reason_code, v.properties),
            );
            lemma_ack_round_trip(v.packet_identifier, v.reason_code, v.properties);
            assert(PubackView {
                packet_identifier: v.packet_identifier,
                reason_code: v.reason_code,
                properties: v.properties,
            } =~= v);
        },
        PacketView::Subscribe(v) => {
            lemma_header_exact(SUBSCRIBE_PACKET, spec_subscribe_body(v));
            lemma_subscribe_round_trip(v);
        },
        PacketView::Suback(v) => {
            lemma_header_exact(SUBACK_PACKET, spec_suback_body(v));
            lemma_suback_round_trip(v);
        },
        PacketView::Unsubscribe(v) => {
            lemma_header_exact(UNSUBSCRIBE_PACKET, spec_unsubscribe_body(v));
            lemma_unsubscribe_round_trip(v);
        },
        PacketView::Unsuback(v) => {
            lemma_header_exact(
                UNSUBACK_PACKET,
                spec_ack_body(v.packet_identifier, v.reason_code, v.properties),
            );
            lemma_ack_round_trip(v.packet_identifier, v.reason_code, v.properties);
            assert(UnsubackView {
                packet_identifier: v.packet_identifier,
                reason_code: v.reason_code,
                properties: v.properties,
            } =~= v);
        },
        PacketView::PingReq => {
            lemma_header_exact(PINGREQ_PACKET, Seq::<u8>::empty());
        },
        PacketView::PingResp => {
            lemma_header_exact(PINGRESP_PACKET, Seq::<u8>::empty());
        },
        PacketView::Disconnect(v) => {
            lemma_header_exact(DISCONNECT_PACKET, crate::disconnect::spec_disconnect_body(v));
            lemma_disconnect_round_trip(v);
        },
    }
}

/// Parsing the header of a framed packet with nothing after it leaves
/// exactly the body.
proof fn lemma_header_exact(first: u8, body: Seq<u8>)
    requires
        body.len() <= crate::primitives::VBI_MAX,
    ensures
        parse_fixed_header(spec_packet_bytes(first, body)) == Some(
            (
                PacketFixedHeader { packet_type: first, remaining_length: body.len() as u32 },
                body,
            ),
        ),
{
    lemma_fixed_header_round_trip(first, body, Seq::<u8>::empty());
    assert(spec_packet_bytes(first, body) + Seq::<u8>::empty() =~= spec_packet_bytes(first, body));
    assert(body + Seq::<u8>::empty() =~= body);
}

/// Decode a packet body of `remaining_length` bytes, dispatched by the
/// already-read fixed header. A first byte outside the table is
/// `Malformed` and consumes nothing.
pub fn get_packet(
    reader: &mut ByteReader,
    fixed_header: PacketFixedHeader,
) -> (r: Result<PacketReceived, MqttError>)
    requires
        old(reader).wf(),
    ensures
        final(reader).wf(),
        final(reader).data == old(reader).data,
        !dispatch_known(fixed_header.packet_type) ==> r == Err::<PacketReceived, MqttError>(
            MqttError::Malformed,
        ),
        dispatch_known(fixed_header.packet_type) && old(reader).remaining().len()
            < fixed_header.remaining_length ==> r == Err::<PacketReceived, MqttError>(
            MqttError::Malformed,
        ),
        dispatch_known(fixed_header.packet_type) && old(reader).remaining().len()
            >= fixed_header.remaining_length ==> match parse_packet_after_header(
            fixed_header,
            old(reader).remaining().take(fixed_header.remaining_length as int),
        ) {
            Some(pv) => (r matches Ok(p) && p@ == pv) && final(reader).remaining() == old(
                reader,
            ).remaining().skip(fixed_header.remaining_length as int),
            None => r == Err::<PacketReceived, MqttError>(MqttError::Malformed),
        },
{
    let first = fixed_header.packet_type;
    let rl = fixed_header.remaining_length;
    if first == CONNECT_PACKET {
        match Connect::read_from(reader, rl) {
            Ok(p) => Ok(PacketReceived::Connect(p)),
            Err(_) => Err(MqttError::Malformed),
        }
    } else if first == CONNACK_PACKET {
        match Connack::read_from(reader, rl) {
            Ok(p) => Ok(PacketReceived::Connack(p)),
            Err(_) => Err(MqttError::Malformed),
        }
    } else if first / 16 == 3 {
        match Publish::read_from(reader, first, rl) {
            Ok(p) => Ok(PacketReceived::Publish(p)),
            Err(_) => Err(MqttError::Malformed),
        }
    } else if first == PUBACK_PACKET {
        match Puback::read_from(reader, rl) {
            Ok(p) => Ok(PacketReceived::Puback(p)),
            Err(_) => Err(MqttError::Malformed),
        }
    } else if first == SUBSCRIBE_PACKET {
        match _Subscribe::read_from(reader, rl) {
            Ok(p) => Ok(PacketReceived::Subscribe(p)),
            Err(_) => Err(MqttError::Malformed),
        }
    } else if first == SUBACK_PACKET {
        match Suback::read_from(reader, rl) {
            Ok(p) => Ok(PacketReceived::Suback(p)),
            Err(_) => Err(MqttError::Malformed),
        }
    } else if first == UNSUBSCRIBE_PACKET {
        match Unsubscribe::read_from(reader, rl) {
            Ok(p) => Ok(PacketReceived::Unsubscribe(p)),
            Err(_) => Err(MqttError::Malformed),
        }
    } else if first == UNSUBACK_PACKET {
        match Unsuback::read_from(reader, rl) {
            Ok(p) => Ok(PacketReceived::Unsuback(p)),
            Err(_) => Err(MqttError::Malformed),
        }
    } else if first == PINGREQ_PACKET {
        if reader.remaining_len() < rl as usize {
            return Err(MqttError::Malformed);
        }
        match PingReq::read_from(reader, rl) {
            Ok(p) => {
                assert(old(reader).remaining().skip(0) =~= old(reader).remaining());
                assert(old(reader).remaining().take(0) =~= Seq::<u8>::empty());
                Ok(PacketReceived::PingReq(p))
            },
            Err(_) => Err(MqttError::Malformed),
        }
    } else if first == PINGRESP_PACKET {
        if reader.remaining_len() < rl as usize {
            return Err(MqttError::Malformed);
        }
        match PingResp::read_from(reader, rl) {
            Ok(p) => {
                assert(old(reader).remaining().skip(0) =~= old(reader).remaining());
                assert(old(reader).remaining().take(0) =~= Seq::<u8>::empty());
                Ok(PacketReceived::PingResp(p))
            },
            Err(_) => Err(MqttError::Malformed),
        }
    } else if first == DISCONNECT_PACKET {
        match Disconnect::read_from(reader, rl) {
            Ok(p) => Ok(PacketReceived::Disconnect(p)),
            Err(_) => Err(MqttError::Malformed),
        }
    } else {
        Err(MqttError::Malformed)
    }
}

/// Read one whole packet: the fixed header, then the dispatched body.
pub fn read_packet(reader: &mut ByteReader) -> (r: Result<PacketReceived, MqttError>)
    requires
        old(reader).wf(),
    ensures
        final(reader).wf(),
        final(reader).data == old(reader).data,
        r matches Ok(p) ==> match parse_fixed_header(old(reader).remaining()) {
            Some((h, rest)) => rest.len() >= h.remaining_length && parse_packet_after_header(
                h,
                rest.take(h.remaining_length as int),
            ) == Some(p@) && final(reader).remaining() == rest.skip(h.remaining_length as int),
            None => false,
        },
        parse_fixed_header(old(reader).remaining()) is None ==> r == Err::<
            PacketReceived,
            MqttError,
        >(MqttError::Malformed),
{
    let header = match PacketFixedHeader::read_from(reader) {
        Ok(h) => h,
        Err(_) => {
            return Err(MqttError::Malformed);
        },
    };
    get_packet(reader, header)
}

} // verus!
