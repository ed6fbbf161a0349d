//! SUBACK: the broker's reply to SUBSCRIBE. Variable header: the
//! matching packet identifier and properties (a reason string and a
//! user property are the ones this packet may carry); payload: one
//! reason code per requested filter, in the same order.

use vstd::prelude::*;
use crate::errors::MqttError;
use crate::fixed_header::{body_fits, spec_packet_bytes, write_packet, SUBACK_PACKET};
use crate::primitives::{
    lemma_u16_round_trip, parse_u16_be, spec_u16_be, write_bytes, write_u16_be, ByteReader,
};
use crate::properties::{
    lemma_property_set_round_trip, parse_property_set, property_set_fits, spec_property_set_bytes,
    PropertyView, VariableHeaderProperties, VariableHeaderProperty,
};

verus! {

/// A SUBACK packet.
#[derive(Debug)]
pub struct Suback {
    pub packet_identifier: u16,
    pub reason_string: Option<String>,
    pub user_property: Option<(String, String)>,
    pub reason_codes: Vec<u8>,
}

/// The mathematical model of a SUBACK.
#[verifier::ext_equal]
pub struct SubackView {
    pub packet_identifier: u16,
    pub reason_string: Option<Seq<char>>,
    pub user_property: Option<(Seq<char>, Seq<char>)>,
    pub reason_codes: Seq<u8>,
}

impl View for Suback {
    type V = SubackView;

    open spec fn view(&self) -> SubackView {
        SubackView {
            packet_identifier: self.packet_identifier,
            reason_string: match self.reason_string {
                Some(s) => Some(s@),
                None => None,
            },
            user_property: match self.user_property {
                Some((k, v)) => Some((k@, v@)),
                None => None,
            },
            reason_codes: self.reason_codes@,
        }
    }
}

/// The property list a SUBACK carries: its reason string if any, then
/// its user property if any.
pub open spec fn spec_suback_props(v: SubackView) -> Seq<PropertyView> {
    (match v.reason_string {
        Some(s) => seq![PropertyView::ReasonString(s)],
        None => Seq::empty(),
    }) + (match v.user_property {
        Some((k, val)) => seq![PropertyView::UserProperty(k, val)],
        None => Seq::empty(),
    })
}

/// Recover the two optional fields from a decoded property list; any
/// other property, repetition or order is malformed here.
pub open spec fn suback_opts_of_props(ps: Seq<PropertyView>) -> Option<
    (Option<Seq<char>>, Option<(Seq<char>, Seq<char>)>),
> {
    if ps.len() == 0 {
        Some((None, None))
    } else if ps.len() == 1 {
        match ps[0] {
            PropertyView::ReasonString(s) => Some((Some(s), None)),
            PropertyView::UserProperty(k, v) => Some((None, Some((k, v)))),
            _ => None,
        }
    } else if ps.len() == 2 {
        match (ps[0], ps[1]) {
            (PropertyView::ReasonString(s), PropertyView::UserProperty(k, v)) => Some(
                (Some(s), Some((k, v))),
            ),
            _ => None,
        }
    } else {
        None
    }
}

/// Body of a SUBACK: packet identifier, properties, reason codes.
pub open spec fn spec_suback_body(v: SubackView) -> Seq<u8> {
    spec_u16_be(v.packet_identifier) + spec_property_set_bytes(spec_suback_props(v))
        + v.reason_codes
}

/// A whole SUBACK packet.
pub open spec fn spec_suback_packet_bytes(v: SubackView) -> Seq<u8> {
    spec_packet_bytes(SUBACK_PACKET, spec_suback_body(v))
}

/// Whether a SUBACK can be framed: at least one reason code and
/// properties in range.
pub open spec fn suback_fits(v: SubackView) -> bool {
    &&& v.reason_codes.len() >= 1
    &&& property_set_fits(spec_suback_props(v))
    &&& body_fits(spec_suback_body(v))
}

/// Read a SUBACK body, consuming it exactly; the rest of the body is
/// the reason codes, of which there must be at least one.
pub open spec fn parse_suback_body(s: Seq<u8>) -> Option<SubackView> {
    match parse_u16_be(s) {
        Some((pid, r1)) => match parse_property_set(r1) {
            Some((ps, codes)) => match suback_opts_of_props(ps) {
                Some((rs, up)) => if codes.len() >= 1 {
                    Some(
                        SubackView {
                            packet_identifier: pid,
                            reason_string: rs,
                            user_property: up,
                            reason_codes: codes,
                        },
                    )
                } else {
                    None
                },
                None => None,
            },
            None => None,
        },
        None => None,
    }
}

/// Decoding an encoded SUBACK body yields the packet back.
pub proof fn lemma_suback_round_trip(v: SubackView)
    requires
        suback_fits(v),
    ensures
        parse_suback_body(spec_suback_body(v)) == Some(v),
{
    let props = spec_suback_props(v);
    let pset = spec_property_set_bytes(props);
    let s = spec_suback_body(v);
    assert(s =~= spec_u16_be(v.packet_identifier) + (pset + v.reason_codes));
    lemma_u16_round_trip(v.packet_identifier, pset + v.reason_codes);
    lemma_property_set_round_trip(props, v.reason_codes);
    assert(suback_opts_of_props(props) == Some((v.reason_string, v.user_property))) by {
        match (v.reason_string, v.user_property) {
            (Some(rs), Some((k, val))) => {
                assert(props =~= seq![
                    PropertyView::ReasonString(rs),
                    PropertyView::UserProperty(k, val),
                ]);
            },
            (Some(rs), None) => {
                assert(props =~= seq![PropertyView::ReasonString(rs)]);
            },
            (None, Some((k, val))) => {
                assert(props =~= seq![PropertyView::UserProperty(k, val)]);
            },
            (None, None) => {
                assert(props =~= Seq::<PropertyView>::empty());
            },
        }
    }
    assert(parse_suback_body(s) matches Some(got) && got =~= v);
}

impl Suback {
    /// Serialise the packet, fixed header included; `BadArgument`
    /// exactly when there is no reason code or a field outgrows its
    /// wire form.
    #[verifier::loop_isolation(false)]
    pub fn write_to(&self, out: &mut Vec<u8>) -> (r: Result<(), MqttError>)
        ensures
            if suback_fits(self@) {
                r == Ok::<(), MqttError>(()) && final(out)@ == old(out)@
                    + spec_suback_packet_bytes(self@)
            } else {
                r == Err::<(), MqttError>(MqttError::BadArgument) && final(out)@ == old(out)@
            },
    {
        if self.reason_codes.len() == 0 {
            return Err(MqttError::BadArgument);
        }
        let mut props = VariableHeaderProperties::new();
        match &self.reason_string {
            Some(s) => {
                props.add_property_reason_string(s.clone());
            },
            None => {},
        }
        match &self.user_property {
            Some((k, v)) => {
                props.add_property_user_property(k.clone(), v.clone());
            },
            None => {},
        }
        assert(props@ =~= spec_suback_props(self@));
        let pset = match props.as_bytes() {
            Ok(b) => b,
            Err(_) => {
                return Err(MqttError::BadArgument);
            },
        };
        let mut body: Vec<u8> = Vec::new();
        write_u16_be(&mut body, self.packet_identifier);
        write_bytes(&mut body, pset.as_slice());
        write_bytes(&mut body, self.reason_codes.as_slice());
        assert(body@ =~= spec_suback_body(self@));
        write_packet(out, SUBACK_PACKET, &body)
    }

    /// Decode a SUBACK body of `remaining_length` bytes, the fixed
    /// header already read.
    pub fn read_from(reader: &mut ByteReader, remaining_length: u32) -> (r: Result<
        Suback,
        MqttError,
    >)
        requires
            old(reader).wf(),
        ensures
            final(reader).wf(),
            final(reader).data == old(reader).data,
            old(reader).remaining().len() < remaining_length ==> r == Err::<Suback, MqttError>(
                MqttError::Malformed,
            ) && *final(reader) == *old(reader),
            old(reader).remaining().len() >= remaining_length ==> {
                &&& final(reader).remaining() == old(reader).remaining().skip(
                    remaining_length as int,
                )
                &&& match parse_suback_body(old(reader).remaining().take(remaining_length as int)) {
                    Some(v) => r matches Ok(p) && p@ == v,
                    None => r == Err::<Suback, MqttError>(MqttError::Malformed),
                }
            },
    {
        let body = match reader.take(remaining_length as usize) {
            Ok(b) => b,
            Err(_) => {
                return Err(MqttError::Malformed);
            },
        };
        let mut br = ByteReader::new(body);
        let packet_identifier = match br.read_u16() {
            Ok(p) => p,
            Err(_) => {
                return Err(MqttError::Malformed);
            },
        };
        let props = match VariableHeaderProperties::read_from(&mut br) {
            Ok(p) => p,
            Err(_) => {
                return Err(MqttError::Malformed);
            },
        };
        let n = props.properties.len();
        let (reason_string, user_property): (Option<String>, Option<(String, String)>) = if n
            == 0 {
            (None, None)
        } else if n == 1 {
            match &props.properties[0] {
                VariableHeaderProperty::ReasonString(s) => (Some(s.clone()), None),
                VariableHeaderProperty::UserProperty(k, v) => (
                    None,
                    Some((k.clone(), v.clone())),
                ),
                _ => {
                    return Err(MqttError::Malformed);
                },
            }
        } else if n == 2 {
            let second: (String, String) = match &props.properties[1] {
                VariableHeaderProperty::UserProperty(k, v) => (k.clone(), v.clone()),
                _ => {
                    return Err(MqttError::Malformed);
                },
            };
            match &props.properties[0] {
                VariableHeaderProperty::ReasonString(s) => (Some(s.clone()), Some(second)),
                _ => {
                    return Err(MqttError::Malformed);
                },
            }
        } else {
            return Err(MqttError::Malformed);
        };
        let m = br.remaining_len();
        let reason_codes = match br.take(m) {
            Ok(c) => c,
            Err(_) => {
                return Err(MqttError::Malformed);
            },
        };
        if reason_codes.len() == 0 {
            return Err(MqttError::Malformed);
        }
        let r = Suback { packet_identifier, reason_string, user_property, reason_codes };
        assert(parse_suback_body(old(reader).remaining().take(remaining_length as int))
            matches Some(v) && r@ =~= v);
        Ok(r)
    }
}

} // verus!
