//! Variable-header properties: the tagged union of the property ids
//! the protocol defines, their wire encoding (`id || value` entries,
//! the whole set prefixed by a variable-byte-integer body length), and
//! the ordered property list carried by every packet.

use vstd::prelude::*;
use crate::errors::MqttError;
use crate::primitives::{
    binary_fits, lemma_binary_round_trip, lemma_parse_vbi_rec_bound, lemma_string_round_trip,
    lemma_u16_round_trip, lemma_u32_round_trip, lemma_vbi_round_trip, parse_binary, parse_string,
    parse_u16_be, parse_u32_be, parse_u8, parse_vbi, spec_binary_bytes, spec_string_bytes,
    spec_u16_be, spec_u32_be, spec_vbi, string_fits, write_binary, write_bytes, write_string,
    write_u16_be, write_u32_be, write_u8, write_vbi, ByteReader, STRING_MAX, VBI_MAX,
};

verus! {

/// One variable-header property, tagged by its wire id.
#[derive(Debug)]
pub enum VariableHeaderProperty {
    /// 0x01, byte.
    PayloadFormatIndicator(u8),
    /// 0x02, four-byte integer.
    MessageExpiryInterval(u32),
    /// 0x03, UTF-8 string.
    ContentType(String),
    /// 0x08, UTF-8 string.
    ResponseTopic(String),
    /// 0x09, binary data.
    CorrelationData(Vec<u8>),
    /// 0x0B, variable-byte integer.
    SubscriptionIdentifier(u32),
    /// 0x11, four-byte integer.
    SessionExpiryInterval(u32),
    /// 0x12, UTF-8 string.
    AssignedClientIdentifier(String),
    /// 0x13, two-byte integer.
    ServerKeepAlive(u16),
    /// 0x15, UTF-8 string.
    AuthenticationMethod(String),
    /// 0x16, binary data.
    AuthenticationData(Vec<u8>),
    /// 0x17, byte.
    RequestProblemInformation(u8),
    /// 0x19, byte.
    RequestResponseInformation(u8),
    /// 0x1A, UTF-8 string.
    ResponseInformation(String),
    /// 0x1C, UTF-8 string.
    ServerReference(String),
    /// 0x1F, UTF-8 string.
    ReasonString(String),
    /// 0x21, two-byte integer.
    ReceiveMaximum(u16),
    /// 0x22, two-byte integer.
    TopicAliasMaximum(u16),
    /// 0x24, byte.
    MaximumQos(u8),
    /// 0x25, byte.
    RetainAvailable(u8),
    /// 0x26, UTF-8 string pair; may repeat within one set.
    UserProperty(String, String),
    /// 0x27, four-byte integer.
    MaximumPacketSize(u32),
    /// 0x28, byte.
    WildcardSubscriptionAvailable(u8),
    /// 0x29, byte.
    SubscriptionIdentifiersAvailable(u8),
    /// 0x2A, byte.
    SharedSubscriptionAvailable(u8),
}

/// The mathematical model of a property: the same tag over character
/// and byte sequences.
#[verifier::ext_equal]
pub enum PropertyView {
    PayloadFormatIndicator(u8),
    MessageExpiryInterval(u32),
    ContentType(Seq<char>),
    ResponseTopic(Seq<char>),
    CorrelationData(Seq<u8>),
    SubscriptionIdentifier(u32),
    SessionExpiryInterval(u32),
    AssignedClientIdentifier(Seq<char>),
    ServerKeepAlive(u16),
    AuthenticationMethod(Seq<char>),
    AuthenticationData(Seq<u8>),
    RequestProblemInformation(u8),
    RequestResponseInformation(u8),
    ResponseInformation(Seq<char>),
    ServerReference(Seq<char>),
    ReasonString(Seq<char>),
    ReceiveMaximum(u16),
    TopicAliasMaximum(u16),
    MaximumQos(u8),
    RetainAvailable(u8),
    UserProperty(Seq<char>, Seq<char>),
    MaximumPacketSize(u32),
    WildcardSubscriptionAvailable(u8),
    SubscriptionIdentifiersAvailable(u8),
    SharedSubscriptionAvailable(u8),
}

impl View for VariableHeaderProperty {
    type V = PropertyView;

    open spec fn view(&self) -> PropertyView {
        match self {
            VariableHeaderProperty::PayloadFormatIndicator(v) => PropertyView::PayloadFormatIndicator(*v),
            VariableHeaderProperty::MessageExpiryInterval(v) => PropertyView::MessageExpiryInterval(*v),
            VariableHeaderProperty::ContentType(s) => PropertyView::ContentType(s@),
            VariableHeaderProperty::ResponseTopic(s) => PropertyView::ResponseTopic(s@),
            VariableHeaderProperty::CorrelationData(b) => PropertyView::CorrelationData(b@),
            VariableHeaderProperty::SubscriptionIdentifier(v) => PropertyView::SubscriptionIdentifier(*v),
            VariableHeaderProperty::SessionExpiryInterval(v) => PropertyView::SessionExpiryInterval(*v),
            VariableHeaderProperty::AssignedClientIdentifier(s) => PropertyView::AssignedClientIdentifier(s@),
            VariableHeaderProperty::ServerKeepAlive(v) => PropertyView::ServerKeepAlive(*v),
            VariableHeaderProperty::AuthenticationMethod(s) => PropertyView::AuthenticationMethod(s@),
            VariableHeaderProperty::AuthenticationData(b) => PropertyView::AuthenticationData(b@),
            VariableHeaderProperty::RequestProblemInformation(v) => PropertyView::RequestProblemInformation(*v),
            VariableHeaderProperty::RequestResponseInformation(v) => PropertyView::RequestResponseInformation(*v),
            VariableHeaderProperty::ResponseInformation(s) => PropertyView::ResponseInformation(s@),
            VariableHeaderProperty::ServerReference(s) => PropertyView::ServerReference(s@),
            VariableHeaderProperty::ReasonString(s) => PropertyView::ReasonString(s@),
            VariableHeaderProperty::ReceiveMaximum(v) => PropertyView::ReceiveMaximum(*v),
            VariableHeaderProperty::TopicAliasMaximum(v) => PropertyView::TopicAliasMaximum(*v),
            VariableHeaderProperty::MaximumQos(v) => PropertyView::MaximumQos(*v),
            VariableHeaderProperty::RetainAvailable(v) => PropertyView::RetainAvailable(*v),
            VariableHeaderProperty::UserProperty(k, v) => PropertyView::UserProperty(k@, v@),
            VariableHeaderProperty::MaximumPacketSize(v) => PropertyView::MaximumPacketSize(*v),
            VariableHeaderProperty::WildcardSubscriptionAvailable(v) => PropertyView::WildcardSubscriptionAvailable(*v),
            VariableHeaderProperty::SubscriptionIdentifiersAvailable(v) => PropertyView::SubscriptionIdentifiersAvailable(*v),
            VariableHeaderProperty::SharedSubscriptionAvailable(v) => PropertyView::SharedSubscriptionAvailable(*v),
        }
    }
}

/// Wire id of a property.
pub open spec fn spec_property_id(p: PropertyView) -> u8 {
    match p {
        PropertyView::PayloadFormatIndicator(_) => 0x01,
        PropertyView::MessageExpiryInterval(_) => 0x02,
        PropertyView::ContentType(_) => 0x03,
        PropertyView::ResponseTopic(_) => 0x08,
        PropertyView::CorrelationData(_) => 0x09,
        PropertyView::SubscriptionIdentifier(_) => 0x0B,
        PropertyView::SessionExpiryInterval(_) => 0x11,
        PropertyView::AssignedClientIdentifier(_) => 0x12,
        PropertyView::ServerKeepAlive(_) => 0x13,
        PropertyView::AuthenticationMethod(_) => 0x15,
        PropertyView::AuthenticationData(_) => 0x16,
        PropertyView::RequestProblemInformation(_) => 0x17,
        PropertyView::RequestResponseInformation(_) => 0x19,
        PropertyView::ResponseInformation(_) => 0x1A,
        PropertyView::ServerReference(_) => 0x1C,
        PropertyView::ReasonString(_) => 0x1F,
        PropertyView::ReceiveMaximum(_) => 0x21,
        PropertyView::TopicAliasMaximum(_) => 0x22,
        PropertyView::MaximumQos(_) => 0x24,
        PropertyView::RetainAvailable(_) => 0x25,
        PropertyView::UserProperty(_, _) => 0x26,
        PropertyView::MaximumPacketSize(_) => 0x27,
        PropertyView::WildcardSubscriptionAvailable(_) => 0x28,
        PropertyView::SubscriptionIdentifiersAvailable(_) => 0x29,
        PropertyView::SharedSubscriptionAvailable(_) => 0x2A,
    }
}

/// Wire encoding of a property's value, without the id.
pub open spec fn spec_property_payload(p: PropertyView) -> Seq<u8> {
    match p {
        PropertyView::PayloadFormatIndicator(v) => seq![v],
        PropertyView::MessageExpiryInterval(v) => spec_u32_be(v),
        PropertyView::ContentType(s) => spec_string_bytes(s),
        PropertyView::ResponseTopic(s) => spec_string_bytes(s),
        PropertyView::CorrelationData(b) => spec_binary_bytes(b),
        PropertyView::SubscriptionIdentifier(v) => spec_vbi(v as nat),
        PropertyView::SessionExpiryInterval(v) => spec_u32_be(v),
        PropertyView::AssignedClientIdentifier(s) => spec_string_bytes(s),
        PropertyView::ServerKeepAlive(v) => spec_u16_be(v),
        PropertyView::AuthenticationMethod(s) => spec_string_bytes(s),
        PropertyView::AuthenticationData(b) => spec_binary_bytes(b),
        PropertyView::RequestProblemInformation(v) => seq![v],
        PropertyView::RequestResponseInformation(v) => seq![v],
        PropertyView::ResponseInformation(s) => spec_string_bytes(s),
        PropertyView::ServerReference(s) => spec_string_bytes(s),
        PropertyView::ReasonString(s) => spec_string_bytes(s),
        PropertyView::ReceiveMaximum(v) => spec_u16_be(v),
        PropertyView::TopicAliasMaximum(v) => spec_u16_be(v),
        PropertyView::MaximumQos(v) => seq![v],
        PropertyView::RetainAvailable(v) => seq![v],
        PropertyView::UserProperty(k, v) => spec_string_bytes(k) + spec_string_bytes(v),
        PropertyView::MaximumPacketSize(v) => spec_u32_be(v),
        PropertyView::WildcardSubscriptionAvailable(v) => seq![v],
        PropertyView::SubscriptionIdentifiersAvailable(v) => seq![v],
        PropertyView::SharedSubscriptionAvailable(v) => seq![v],
    }
}

/// Wire encoding of one property: its id, then its value.
pub open spec fn spec_property_bytes(p: PropertyView) -> Seq<u8> {
    seq![spec_property_id(p)] + spec_property_payload(p)
}

/// Whether a property's value fits its wire field: strings and binary
/// data at most 65 535 bytes, a subscription identifier at most
/// `VBI_MAX`.
pub open spec fn property_fits(p: PropertyView) -> bool {
    match p {
        PropertyView::ContentType(s) => string_fits(s),
        PropertyView::ResponseTopic(s) => string_fits(s),
        PropertyView::CorrelationData(b) => binary_fits(b),
        PropertyView::SubscriptionIdentifier(v) => v <= VBI_MAX,
        PropertyView::AssignedClientIdentifier(s) => string_fits(s),
        PropertyView::AuthenticationMethod(s) => string_fits(s),
        PropertyView::AuthenticationData(b) => binary_fits(b),
        PropertyView::ResponseInformation(s) => string_fits(s),
        PropertyView::ServerReference(s) => string_fits(s),
        PropertyView::ReasonString(s) => string_fits(s),
        PropertyView::UserProperty(k, v) => string_fits(k) && string_fits(v),
        _ => true,
    }
}

/// Read one property's value, the id already consumed. An id outside
/// the table fails.
pub open spec fn parse_property_payload(id: u8, r: Seq<u8>) -> Option<(PropertyView, Seq<u8>)> {
    if id == 0x01 {
        match parse_u8(r) {
            Some((v, rest)) => Some((PropertyView::PayloadFormatIndicator(v), rest)),
            None => None,
        }
    } else if id == 0x02 {
        match parse_u32_be(r) {
            Some((v, rest)) => Some((PropertyView::MessageExpiryInterval(v), rest)),
            None => None,
        }
    } else if id == 0x03 {
        match parse_string(r) {
            Some((s, rest)) => Some((PropertyView::ContentType(s), rest)),
            None => None,
        }
    } else if id == 0x08 {
        match parse_string(r) {
            Some((s, rest)) => Some((PropertyView::ResponseTopic(s), rest)),
            None => None,
        }
    } else if id == 0x09 {
        match parse_binary(r) {
            Some((b, rest)) => Some((PropertyView::CorrelationData(b), rest)),
            None => None,
        }
    } else if id == 0x0B {
        match parse_vbi(r) {
            Some((v, rest)) => Some((PropertyView::SubscriptionIdentifier(v as u32), rest)),
            None => None,
        }
    } else if id == 0x11 {
        match parse_u32_be(r) {
            Some((v, rest)) => Some((PropertyView::SessionExpiryInterval(v), rest)),
            None => None,
        }
    } else if id == 0x12 {
        match parse_string(r) {
            Some((s, rest)) => Some((PropertyView::AssignedClientIdentifier(s), rest)),
            None => None,
        }
    } else if id == 0x13 {
        match parse_u16_be(r) {
            Some((v, rest)) => Some((PropertyView::ServerKeepAlive(v), rest)),
            None => None,
        }
    } else if id == 0x15 {
        match parse_string(r) {
            Some((s, rest)) => Some((PropertyView::AuthenticationMethod(s), rest)),
            None => None,
        }
    } else if id == 0x16 {
        match parse_binary(r) {
            Some((b, rest)) => Some((PropertyView::AuthenticationData(b), rest)),
            None => None,
        }
    } else if id == 0x17 {
        match parse_u8(r) {
            Some((v, rest)) => Some((PropertyView::RequestProblemInformation(v), rest)),
            None => None,
        }
    } else if id == 0x19 {
        match parse_u8(r) {
            Some((v, rest)) => Some((PropertyView::RequestResponseInformation(v), rest)),
            None => None,
        }
    } else if id == 0x1A {
        match parse_string(r) {
            Some((s, rest)) => Some((PropertyView::ResponseInformation(s), rest)),
            None => None,
        }
    } else if id == 0x1C {
        match parse_string(r) {
            Some((s, rest)) => Some((PropertyView::ServerReference(s), rest)),
            None => None,
        }
    } else if id == 0x1F {
        match parse_string(r) {
            Some((s, rest)) => Some((PropertyView::ReasonString(s), rest)),
            None => None,
        }
    } else if id == 0x21 {
        match parse_u16_be(r) {
            Some((v, rest)) => Some((PropertyView::ReceiveMaximum(v), rest)),
            None => None,
        }
    } else if id == 0x22 {
        match parse_u16_be(r) {
            Some((v, rest)) => Some((PropertyView::TopicAliasMaximum(v), rest)),
            None => None,
        }
    } else if id == 0x24 {
        match parse_u8(r) {
            Some((v, rest)) => Some((PropertyView::MaximumQos(v), rest)),
            None => None,
        }
    } else if id == 0x25 {
        match parse_u8(r) {
            Some((v, rest)) => Some((PropertyView::RetainAvailable(v), rest)),
            None => None,
        }
    } else if id == 0x26 {
        match parse_string(r) {
            Some((k, rest1)) => match parse_string(rest1) {
                Some((v, rest)) => Some((PropertyView::UserProperty(k, v), rest)),
                None => None,
            },
            None => None,
        }
    } else if id == 0x27 {
        match parse_u32_be(r) {
            Some((v, rest)) => Some((PropertyView::MaximumPacketSize(v), rest)),
            None => None,
        }
    } else if id == 0x28 {
        match parse_u8(r) {
            Some((v, rest)) => Some((PropertyView::WildcardSubscriptionAvailable(v), rest)),
            None => None,
        }
    } else if id == 0x29 {
        match parse_u8(r) {
            Some((v, rest)) => Some((PropertyView::SubscriptionIdentifiersAvailable(v), rest)),
            None => None,
        }
    } else if id == 0x2A {
        match parse_u8(r) {
            Some((v, rest)) => Some((PropertyView::SharedSubscriptionAvailable(v), rest)),
            None => None,
        }
    } else {
        None
    }
}

/// Read one property: id byte, then its value.
pub open spec fn parse_property(s: Seq<u8>) -> Option<(PropertyView, Seq<u8>)> {
    match parse_u8(s) {
        Some((id, r)) => parse_property_payload(id, r),
        None => None,
    }
}

/// Concatenated encoding of an ordered property list.
pub open spec fn spec_properties_bytes(ps: Seq<PropertyView>) -> Seq<u8>
    decreases ps.len(),
{
    if ps.len() == 0 {
        Seq::empty()
    } else {
        spec_property_bytes(ps[0]) + spec_properties_bytes(ps.drop_first())
    }
}

/// Every property of the list fits its wire fields.
pub open spec fn properties_fit(ps: Seq<PropertyView>) -> bool {
    forall|i: int| 0 <= i < ps.len() ==> property_fits(#[trigger] ps[i])
}

/// Read properties until the input is exhausted, keeping their order.
pub open spec fn parse_properties(s: Seq<u8>) -> Option<Seq<PropertyView>>
    decreases s.len(),
{
    if s.len() == 0 {
        Some(Seq::empty())
    } else {
        match parse_property(s) {
            Some((p, r)) => if r.len() < s.len() {
                match parse_properties(r) {
                    Some(ps) => Some(seq![p] + ps),
                    None => None,
                }
            } else {
                None
            },
            None => None,
        }
    }
}

/// Encoding of a whole property set: variable-byte-integer body
/// length, then the entries in order.
pub open spec fn spec_property_set_bytes(ps: Seq<PropertyView>) -> Seq<u8> {
    spec_vbi(spec_properties_bytes(ps).len() as nat) + spec_properties_bytes(ps)
}

/// Whether a property list can be framed: every entry fits and the
/// body length fits a variable-byte integer.
pub open spec fn property_set_fits(ps: Seq<PropertyView>) -> bool {
    properties_fit(ps) && spec_properties_bytes(ps).len() <= VBI_MAX
}

/// Read a whole property set: body length, then exactly that many
/// bytes of entries.
pub open spec fn parse_property_set(s: Seq<u8>) -> Option<(Seq<PropertyView>, Seq<u8>)> {
    match parse_vbi(s) {
        Some((n, r)) => if r.len() >= n {
            match parse_properties(r.take(n as int)) {
                Some(ps) => Some((ps, r.skip(n as int))),
                None => None,
            }
        } else {
            None
        },
        None => None,
    }
}

// ---------------------------------------------------------------------
// Round-trip lemmas
// ---------------------------------------------------------------------

/// Reading a property consumes at least one byte, and the rest is a
/// suffix of the input.
pub proof fn lemma_parse_property_consumes(s: Seq<u8>)
    ensures
        parse_property(s) matches Some((p, r)) ==> r.len() < s.len(),
{
    if s.len() >= 1 {
        lemma_parse_vbi_rec_bound(s.skip(1), 4);
    }
}

/// Parsing one property back out of its encoding yields the property
/// and leaves the rest untouched.
pub proof fn lemma_property_round_trip(p: PropertyView, rest: Seq<u8>)
    requires
        property_fits(p),
    ensures
        parse_property(spec_property_bytes(p) + rest) == Some((p, rest)),
{
    let s = spec_property_bytes(p) + rest;
    let payload = spec_property_payload(p);
    assert(s[0] == spec_property_id(p));
    assert(s.skip(1) =~= payload + rest);
    match p {
        PropertyView::PayloadFormatIndicator(v) => {
            assert((seq![v] + rest).skip(1) =~= rest);
        },
        PropertyView::MessageExpiryInterval(v) => {
            lemma_u32_round_trip(v, rest);
        },
        PropertyView::ContentType(s1) => {
            lemma_string_round_trip(s1, rest);
        },
        PropertyView::ResponseTopic(s1) => {
            lemma_string_round_trip(s1, rest);
        },
        PropertyView::CorrelationData(b) => {
            lemma_binary_round_trip(b, rest);
        },
        PropertyView::SubscriptionIdentifier(v) => {
            lemma_vbi_round_trip(v as nat, rest);
        },
        PropertyView::SessionExpiryInterval(v) => {
            lemma_u32_round_trip(v, rest);
        },
        PropertyView::AssignedClientIdentifier(s1) => {
            lemma_string_round_trip(s1, rest);
        },
        PropertyView::ServerKeepAlive(v) => {
            lemma_u16_round_trip(v, rest);
        },
        PropertyView::AuthenticationMethod(s1) => {
            lemma_string_round_trip(s1, rest);
        },
        PropertyView::AuthenticationData(b) => {
            lemma_binary_round_trip(b, rest);
        },
        PropertyView::RequestProblemInformation(v) => {
            assert((seq![v] + rest).skip(1) =~= rest);
        },
        PropertyView::RequestResponseInformation(v) => {
            assert((seq![v] + rest).skip(1) =~= rest);
        },
        PropertyView::ResponseInformation(s1) => {
            lemma_string_round_trip(s1, rest);
        },
        PropertyView::ServerReference(s1) => {
            lemma_string_round_trip(s1, rest);
        },
        PropertyView::ReasonString(s1) => {
            lemma_string_round_trip(s1, rest);
        },
        PropertyView::ReceiveMaximum(v) => {
            lemma_u16_round_trip(v, rest);
        },
        PropertyView::TopicAliasMaximum(v) => {
            lemma_u16_round_trip(v, rest);
        },
        PropertyView::MaximumQos(v) => {
            assert((seq![v] + rest).skip(1) =~= rest);
        },
        PropertyView::RetainAvailable(v) => {
            assert((seq![v] + rest).skip(1) =~= rest);
        },
        PropertyView::UserProperty(k, v) => {
            assert(payload + rest =~= spec_string_bytes(k) + (spec_string_bytes(v) + rest));
            lemma_string_round_trip(k, spec_string_bytes(v) + rest);
            lemma_string_round_trip(v, rest);
        },
        PropertyView::MaximumPacketSize(v) => {
            lemma_u32_round_trip(v, rest);
        },
        PropertyView::WildcardSubscriptionAvailable(v) => {
            assert((seq![v] + rest).skip(1) =~= rest);
        },
        PropertyView::SubscriptionIdentifiersAvailable(v) => {
            assert((seq![v] + rest).skip(1) =~= rest);
        },
        PropertyView::SharedSubscriptionAvailable(v) => {
            assert((seq![v] + rest).skip(1) =~= rest);
        },
    }
}

/// Parsing a property list back out of its concatenated encoding
/// yields the same list in the same order.
pub proof fn lemma_properties_round_trip(ps: Seq<PropertyView>)
    requires
        properties_fit(ps),
    ensures
        parse_properties(spec_properties_bytes(ps)) == Some(ps),
    decreases ps.len(),
{
    if ps.len() == 0 {
        assert(parse_properties(spec_properties_bytes(ps)) == Some(Seq::<PropertyView>::empty()));
        assert(ps =~= Seq::<PropertyView>::empty());
    } else {
        let p = ps[0];
        let tail = ps.drop_first();
        let s = spec_properties_bytes(ps);
        assert(properties_fit(tail)) by {
            assert(forall|i: int|
                0 <= i < tail.len() ==> tail[i] == #[trigger] ps[i + 1] && property_fits(ps[i + 1]));
        }
        lemma_properties_round_trip(tail);
        lemma_property_round_trip(p, spec_properties_bytes(tail));
        lemma_parse_property_consumes(s);
        assert(spec_property_bytes(p).len() >= 1);
        assert(s.len() >= 1);
        assert(seq![p] + tail =~= ps);
    }
}

/// Appending one property to a list appends its encoding to the
/// list's encoding.
pub proof fn lemma_properties_bytes_snoc(ps: Seq<PropertyView>, p: PropertyView)
    ensures
        spec_properties_bytes(ps.push(p)) == spec_properties_bytes(ps) + spec_property_bytes(p),
    decreases ps.len(),
{
    if ps.len() == 0 {
        assert(ps.push(p)[0] == p);
        assert(ps.push(p).drop_first() =~= Seq::<PropertyView>::empty());
        assert(spec_properties_bytes(Seq::<PropertyView>::empty())
            == Seq::<u8>::empty());
        assert(spec_properties_bytes(ps.push(p)) =~= spec_properties_bytes(ps)
            + spec_property_bytes(p));
    } else {
        let a = spec_property_bytes(ps[0]);
        let b = spec_properties_bytes(ps.drop_first());
        let c = spec_property_bytes(p);
        assert(ps.push(p)[0] == ps[0]);
        assert(ps.push(p).drop_first() =~= ps.drop_first().push(p));
        lemma_properties_bytes_snoc(ps.drop_first(), p);
        assert(spec_properties_bytes(ps.push(p)) == a + (b + c));
        assert(a + (b + c) =~= (a + b) + c);
    }
}

/// Parsing a property set back out of its encoding yields the same
/// ordered list and leaves the rest untouched.
pub proof fn lemma_property_set_round_trip(ps: Seq<PropertyView>, rest: Seq<u8>)
    requires
        property_set_fits(ps),
    ensures
        parse_property_set(spec_property_set_bytes(ps) + rest) == Some((ps, rest)),
{
    let body = spec_properties_bytes(ps);
    assert(spec_property_set_bytes(ps) + rest =~= spec_vbi(body.len() as nat) + (body + rest));
    lemma_vbi_round_trip(body.len() as nat, body + rest);
    assert((body + rest).take(body.len() as int) =~= body);
    assert((body + rest).skip(body.len() as int) =~= rest);
    lemma_properties_round_trip(ps);
}

// ---------------------------------------------------------------------
// Executable property set
// ---------------------------------------------------------------------

/// The ordered property list of a packet's variable header.
#[derive(Debug)]
pub struct VariableHeaderProperties {
    pub properties: Vec<VariableHeaderProperty>,
}

impl View for VariableHeaderProperties {
    type V = Seq<PropertyView>;

    open spec fn view(&self) -> Seq<PropertyView> {
        self.properties@.map_values(|p: VariableHeaderProperty| p@)
    }
}

/// Encode one property; `BadArgument` when its value does not fit the
/// wire field, leaving the output untouched.
fn encode_property(out: &mut Vec<u8>, p: &VariableHeaderProperty) -> (r: Result<(), MqttError>)
    ensures
        if property_fits(p@) {
            r == Ok::<(), MqttError>(()) && final(out)@ == old(out)@ + spec_property_bytes(p@)
        } else {
            r == Err::<(), MqttError>(MqttError::BadArgument) && final(out)@ == old(out)@
        },
{
    match p {
        VariableHeaderProperty::PayloadFormatIndicator(v) => {
            write_u8(out, 0x01);
            write_u8(out, *v);
            assert(final(out)@ =~= old(out)@ + spec_property_bytes(p@));
            Ok(())
        },
        VariableHeaderProperty::MessageExpiryInterval(v) => {
            write_u8(out, 0x02);
            write_u32_be(out, *v);
            assert(final(out)@ =~= old(out)@ + spec_property_bytes(p@));
            Ok(())
        },
        VariableHeaderProperty::ContentType(s) => encode_string_property(out, 0x03, s, Ghost(p@)),
        VariableHeaderProperty::ResponseTopic(s) => encode_string_property(out, 0x08, s, Ghost(p@)),
        VariableHeaderProperty::CorrelationData(b) => encode_binary_property(
            out,
            0x09,
            b,
            Ghost(p@),
        ),
        VariableHeaderProperty::SubscriptionIdentifier(v) => {
            if *v > VBI_MAX {
                return Err(MqttError::BadArgument);
            }
            write_u8(out, 0x0B);
            write_vbi(out, *v);
            assert(final(out)@ =~= old(out)@ + spec_property_bytes(p@));
            Ok(())
        },
        VariableHeaderProperty::SessionExpiryInterval(v) => {
            write_u8(out, 0x11);
            write_u32_be(out, *v);
            assert(final(out)@ =~= old(out)@ + spec_property_bytes(p@));
            Ok(())
        },
        VariableHeaderProperty::AssignedClientIdentifier(s) => encode_string_property(
            out,
            0x12,
            s,
            Ghost(p@),
        ),
        VariableHeaderProperty::ServerKeepAlive(v) => {
            write_u8(out, 0x13);
            write_u16_be(out, *v);
            assert(final(out)@ =~= old(out)@ + spec_property_bytes(p@));
            Ok(())
        },
        VariableHeaderProperty::AuthenticationMethod(s) => encode_string_property(
            out,
            0x15,
            s,
            Ghost(p@),
        ),
        VariableHeaderProperty::AuthenticationData(b) => encode_binary_property(
            out,
            0x16,
            b,
            Ghost(p@),
        ),
        VariableHeaderProperty::RequestProblemInformation(v) => {
            write_u8(out, 0x17);
            write_u8(out, *v);
            assert(final(out)@ =~= old(out)@ + spec_property_bytes(p@));
            Ok(())
        },
        VariableHeaderProperty::RequestResponseInformation(v) => {
            write_u8(out, 0x19);
            write_u8(out, *v);
            assert(final(out)@ =~= old(out)@ + spec_property_bytes(p@));
            Ok(())
        },
        VariableHeaderProperty::ResponseInformation(s) => encode_string_property(
            out,
            0x1A,
            s,
            Ghost(p@),
        ),
        VariableHeaderProperty::ServerReference(s) => encode_string_property(
            out,
            0x1C,
            s,
            Ghost(p@),
        ),
        VariableHeaderProperty::ReasonString(s) => encode_string_property(out, 0x1F, s, Ghost(p@)),
        VariableHeaderProperty::ReceiveMaximum(v) => {
            write_u8(out, 0x21);
            write_u16_be(out, *v);
            assert(final(out)@ =~= old(out)@ + spec_property_bytes(p@));
            Ok(())
        },
        VariableHeaderProperty::TopicAliasMaximum(v) => {
            write_u8(out, 0x22);
            write_u16_be(out, *v);
            assert(final(out)@ =~= old(out)@ + spec_property_bytes(p@));
            Ok(())
        },
        VariableHeaderProperty::MaximumQos(v) => {
            write_u8(out, 0x24);
            write_u8(out, *v);
            assert(final(out)@ =~= old(out)@ + spec_property_bytes(p@));
            Ok(())
        },
        VariableHeaderProperty::RetainAvailable(v) => {
            write_u8(out, 0x25);
            write_u8(out, *v);
            assert(final(out)@ =~= old(out)@ + spec_property_bytes(p@));
            Ok(())
        },
        VariableHeaderProperty::UserProperty(k, v) => {
            if k.as_str().as_bytes_vec().len() > STRING_MAX || v.as_str().as_bytes_vec().len()
                > STRING_MAX {
                return Err(MqttError::BadArgument);
            }
            write_u8(out, 0x26);
            let r1 = write_string(out, k.as_str());
            let r2 = write_string(out, v.as_str());
            assert(r1 == Ok::<(), MqttError>(()) && r2 == Ok::<(), MqttError>(()));
            assert(final(out)@ =~= old(out)@ + spec_property_bytes(p@));
            Ok(())
        },
        VariableHeaderProperty::MaximumPacketSize(v) => {
            write_u8(out, 0x27);
            write_u32_be(out, *v);
            assert(final(out)@ =~= old(out)@ + spec_property_bytes(p@));
            Ok(())
        },
        VariableHeaderProperty::WildcardSubscriptionAvailable(v) => {
            write_u8(out, 0x28);
            write_u8(out, *v);
            assert(final(out)@ =~= old(out)@ + spec_property_bytes(p@));
            Ok(())
        },
        VariableHeaderProperty::SubscriptionIdentifiersAvailable(v) => {
            write_u8(out, 0x29);
            write_u8(out, *v);
            assert(final(out)@ =~= old(out)@ + spec_property_bytes(p@));
            Ok(())
        },
        VariableHeaderProperty::SharedSubscriptionAvailable(v) => {
            write_u8(out, 0x2A);
            write_u8(out, *v);
            assert(final(out)@ =~= old(out)@ + spec_property_bytes(p@));
            Ok(())
        },
    }
}

impl VariableHeaderProperties {
    /// An empty property set.
    pub fn new() -> (r: VariableHeaderProperties)
        ensures
            r@ == Seq::<PropertyView>::empty(),
    {
        let r = VariableHeaderProperties { properties: Vec::new() };
        assert(r@ =~= Seq::<PropertyView>::empty());
        r
    }

    /// Serialise the set: variable-byte-integer body length, then the
    /// entries in order. `BadArgument` exactly when some entry does not
    /// fit its wire field or the body outgrows the length prefix.
    pub fn as_bytes(&self) -> (r: Result<Vec<u8>, MqttError>)
        ensures
            match r {
                Ok(out) => property_set_fits(self@) && out@ == spec_property_set_bytes(self@),
                Err(e) => e == MqttError::BadArgument && !property_set_fits(self@),
            },
    {
        let mut body: Vec<u8> = Vec::new();
        let mut i: usize = 0;
        assert(self@.take(0) =~= Seq::<PropertyView>::empty());
        while i < self.properties.len()
            invariant
                i <= self.properties@.len(),
                self.properties@.len() == self@.len(),
                body@ == spec_properties_bytes(self@.take(i as int)),
                properties_fit(self@.take(i as int)),
            decreases self.properties@.len() - i,
        {
            let ghost done = self@.take(i as int);
            match encode_property(&mut body, &self.properties[i]) {
                Ok(()) => {},
                Err(_) => {
                    assert(self@[i as int] == self.properties@[i as int]@);
                    assert(!property_fits(self@[i as int]));
                    return Err(MqttError::BadArgument);
                },
            }
            proof {
                assert(self@[i as int] == self.properties@[i as int]@);
                lemma_properties_bytes_snoc(done, self@[i as int]);
                assert(done.push(self@[i as int]) =~= self@.take(i as int + 1));
            }
            i = i + 1;
        }
        assert(self@.take(self@.len() as int) =~= self@);
        if body.len() > VBI_MAX as usize {
            return Err(MqttError::BadArgument);
        }
        let mut out: Vec<u8> = Vec::new();
        write_vbi(&mut out, body.len() as u32);
        write_bytes(&mut out, body.as_slice());
        assert(out@ =~= spec_property_set_bytes(self@));
        Ok(out)
    }

    /// Parse a property body (the bytes after the length prefix) into
    /// an ordered set; `Malformed` exactly when the body does not parse
    /// to its end.
    pub fn from_be_bytes(properties: &[u8]) -> (r: Result<VariableHeaderProperties, MqttError>)
        ensures
            match parse_properties(properties@) {
                Some(ps) => r matches Ok(props) && props@ == ps,
                None => r == Err::<VariableHeaderProperties, MqttError>(MqttError::Malformed),
            },
    {
        let data = vstd::slice::slice_to_vec(properties);
        let mut reader = ByteReader::new(data);
        let mut out: Vec<VariableHeaderProperty> = Vec::new();
        proof {
            assert(out@.map_values(|p: VariableHeaderProperty| p@) =~= Seq::<
                PropertyView,
            >::empty());
        }
        while reader.pos < reader.data.len()
            invariant
                reader.wf(),
                match parse_properties(reader.remaining()) {
                    Some(ps) => parse_properties(properties@) == Some(
                        out@.map_values(|p: VariableHeaderProperty| p@) + ps,
                    ),
                    None => parse_properties(properties@) == None::<Seq<PropertyView>>,
                },
            decreases reader.remaining().len(),
        {
            let ghost s = reader.remaining();
            let ghost acc = out@.map_values(|p: VariableHeaderProperty| p@);
            proof {
                lemma_parse_property_consumes(s);
            }
            let p = match read_property(&mut reader) {
                Ok(p) => p,
                Err(_) => {
                    return Err(MqttError::Malformed);
                },
            };
            proof {
                let (pv, rest) = parse_property(s).unwrap();
                assert(parse_properties(s) == match parse_properties(rest) {
                    Some(ps) => Some(seq![pv] + ps),
                    None => None::<Seq<PropertyView>>,
                });
                if let Some(ps) = parse_properties(rest) {
                    assert(acc + (seq![pv] + ps) =~= (acc + seq![pv]) + ps);
                    assert(out@.push(p).map_values(|q: VariableHeaderProperty| q@) =~= acc + seq![
                        pv,
                    ]);
                }
            }
            out.push(p);
        }
        assert(reader.remaining().len() == 0);
        let r = VariableHeaderProperties { properties: out };
        proof {
            let acc = out@.map_values(|p: VariableHeaderProperty| p@);
            assert(acc + Seq::<PropertyView>::empty() =~= acc);
        }
        Ok(r)
    }

    /// Append one property, keeping the order of insertion.
    pub fn push_property(&mut self, p: VariableHeaderProperty)
        ensures
            final(self)@ == old(self)@.push(p@),
    {
        let ghost pv = p@;
        self.properties.push(p);
        assert(final(self)@ =~= old(self)@.push(pv));
    }

    /// Append a payload-format-indicator property (0x01).
    pub fn add_property_payload_format_indicator(&mut self, indicator: u8)
        ensures
            final(self)@ == old(self)@.push(PropertyView::PayloadFormatIndicator(indicator)),
    {
        self.push_property(VariableHeaderProperty::PayloadFormatIndicator(indicator));
    }

    /// Append a message-expiry-interval property (0x02).
    pub fn add_property_message_expiry_interval(&mut self, interval: u32)
        ensures
            final(self)@ == old(self)@.push(PropertyView::MessageExpiryInterval(interval)),
    {
        self.push_property(VariableHeaderProperty::MessageExpiryInterval(interval));
    }

    /// Append a content-type property (0x03).
    pub fn add_property_content_type(&mut self, content_type: String)
        ensures
            final(self)@ == old(self)@.push(PropertyView::ContentType(content_type@)),
    {
        self.push_property(VariableHeaderProperty::ContentType(content_type));
    }

    /// Append a response-topic property (0x08).
    pub fn add_property_response_topic(&mut self, topic: String)
        ensures
            final(self)@ == old(self)@.push(PropertyView::ResponseTopic(topic@)),
    {
        self.push_property(VariableHeaderProperty::ResponseTopic(topic));
    }

    /// Append a correlation-data property (0x09).
    pub fn add_property_correlation_data(&mut self, data: Vec<u8>)
        ensures
            final(self)@ == old(self)@.push(PropertyView::CorrelationData(data@)),
    {
        self.push_property(VariableHeaderProperty::CorrelationData(data));
    }

    /// Append a subscription-identifier property (0x0B).
    pub fn add_property_subscription_identifier(&mut self, identifier: u32)
        ensures
            final(self)@ == old(self)@.push(PropertyView::SubscriptionIdentifier(identifier)),
    {
        self.push_property(VariableHeaderProperty::SubscriptionIdentifier(identifier));
    }

    /// Append a session-expiry-interval property (0x11).
    pub fn add_property_session_expiry_interval(&mut self, interval: u32)
        ensures
            final(self)@ == old(self)@.push(PropertyView::SessionExpiryInterval(interval)),
    {
        self.push_property(VariableHeaderProperty::SessionExpiryInterval(interval));
    }

    /// Append an assigned-client-identifier property (0x12).
    pub fn add_property_assigned_client_identifier(&mut self, id: String)
        ensures
            final(self)@ == old(self)@.push(PropertyView::AssignedClientIdentifier(id@)),
    {
        self.push_property(VariableHeaderProperty::AssignedClientIdentifier(id));
    }

    /// Append a server-keep-alive property (0x13).
    pub fn add_property_server_keep_alive(&mut self, keep_alive: u16)
        ensures
            final(self)@ == old(self)@.push(PropertyView::ServerKeepAlive(keep_alive)),
    {
        self.push_property(VariableHeaderProperty::ServerKeepAlive(keep_alive));
    }

    /// Append an authentication-method property (0x15).
    pub fn add_property_authentication_method(&mut self, method: String)
        ensures
            final(self)@ == old(self)@.push(PropertyView::AuthenticationMethod(method@)),
    {
        self.push_property(VariableHeaderProperty::AuthenticationMethod(method));
    }

    /// Append an authentication-data property (0x16).
    pub fn add_property_authentication_data(&mut self, data: Vec<u8>)
        ensures
            final(self)@ == old(self)@.push(PropertyView::AuthenticationData(data@)),
    {
        self.push_property(VariableHeaderProperty::AuthenticationData(data));
    }

    /// Append a request-problem-information property (0x17).
    pub fn add_property_request_problem_information(&mut self, information: u8)
        ensures
            final(self)@ == old(self)@.push(
                PropertyView::RequestProblemInformation(information),
            ),
    {
        self.push_property(VariableHeaderProperty::RequestProblemInformation(information));
    }

    /// Append a request-response-information property (0x19).
    pub fn add_property_request_response_information(&mut self, information: u8)
        ensures
            final(self)@ == old(self)@.push(
                PropertyView::RequestResponseInformation(information),
            ),
    {
        self.push_property(VariableHeaderProperty::RequestResponseInformation(information));
    }

    /// Append a response-information property (0x1A).
    pub fn add_property_response_information(&mut self, information: String)
        ensures
            final(self)@ == old(self)@.push(PropertyView::ResponseInformation(information@)),
    {
        self.push_property(VariableHeaderProperty::ResponseInformation(information));
    }

    /// Append a server-reference property (0x1C).
    pub fn add_property_server_reference(&mut self, reference: String)
        ensures
            final(self)@ == old(self)@.push(PropertyView::ServerReference(reference@)),
    {
        self.push_property(VariableHeaderProperty::ServerReference(reference));
    }

    /// Append a reason-string property (0x1F).
    pub fn add_property_reason_string(&mut self, reason: String)
        ensures
            final(self)@ == old(self)@.push(PropertyView::ReasonString(reason@)),
    {
        self.push_property(VariableHeaderProperty::ReasonString(reason));
    }

    /// Append a receive-maximum property (0x21).
    pub fn add_property_receive_maximum(&mut self, maximum: u16)
        ensures
            final(self)@ == old(self)@.push(PropertyView::ReceiveMaximum(maximum)),
    {
        self.push_property(VariableHeaderProperty::ReceiveMaximum(maximum));
    }

    /// Append a topic-alias-maximum property (0x22).
    pub fn add_property_topic_alias_maximum(&mut self, maximum: u16)
        ensures
            final(self)@ == old(self)@.push(PropertyView::TopicAliasMaximum(maximum)),
    {
        self.push_property(VariableHeaderProperty::TopicAliasMaximum(maximum));
    }

    /// Append a maximum-qos property (0x24).
    pub fn add_property_maximum_qos(&mut self, qos: u8)
        ensures
            final(self)@ == old(self)@.push(PropertyView::MaximumQos(qos)),
    {
        self.push_property(VariableHeaderProperty::MaximumQos(qos));
    }

    /// Append a retain-available property (0x25).
    pub fn add_property_retain_available(&mut self, available: u8)
        ensures
            final(self)@ == old(self)@.push(PropertyView::RetainAvailable(available)),
    {
        self.push_property(VariableHeaderProperty::RetainAvailable(available));
    }

    /// Append a user property (0x26); the same key may repeat.
    pub fn add_property_user_property(&mut self, key: String, value: String)
        ensures
            final(self)@ == old(self)@.push(PropertyView::UserProperty(key@, value@)),
    {
        self.push_property(VariableHeaderProperty::UserProperty(key, value));
    }

    /// Append a maximum-packet-size property (0x27).
    pub fn add_property_maximum_packet_size(&mut self, size: u32)
        ensures
            final(self)@ == old(self)@.push(PropertyView::MaximumPacketSize(size)),
    {
        self.push_property(VariableHeaderProperty::MaximumPacketSize(size));
    }

    /// Append a wildcard-subscription-available property (0x28).
    pub fn add_property_wildcard_subscription_available(&mut self, available: u8)
        ensures
            final(self)@ == old(self)@.push(
                PropertyView::WildcardSubscriptionAvailable(available),
            ),
    {
        self.push_property(VariableHeaderProperty::WildcardSubscriptionAvailable(available));
    }

    /// Append a subscription-identifiers-available property (0x29).
    pub fn add_property_subscription_identifiers_available(&mut self, available: u8)
        ensures
            final(self)@ == old(self)@.push(
                PropertyView::SubscriptionIdentifiersAvailable(available),
            ),
    {
        self.push_property(VariableHeaderProperty::SubscriptionIdentifiersAvailable(available));
    }

    /// Append a shared-subscription-available property (0x2A).
    pub fn add_property_shared_subscription_available(&mut self, available: u8)
        ensures
            final(self)@ == old(self)@.push(
                PropertyView::SharedSubscriptionAvailable(available),
            ),
    {
        self.push_property(VariableHeaderProperty::SharedSubscriptionAvailable(available));
    }

    /// Read a whole property set (length prefix, then exactly that many
    /// bytes of entries) from a packet body.
    pub fn read_from(reader: &mut ByteReader) -> (r: Result<VariableHeaderProperties, MqttError>)
        requires
            old(reader).wf(),
        ensures
            final(reader).wf(),
            final(reader).data == old(reader).data,
            match parse_property_set(old(reader).remaining()) {
                Some((ps, rest)) => (r matches Ok(props) && props@ == ps)
                    && final(reader).remaining() == rest,
                None => r == Err::<VariableHeaderProperties, MqttError>(MqttError::Malformed),
            },
    {
        let n = match reader.read_vbi() {
            Ok(n) => n,
            Err(_) => {
                return Err(MqttError::Malformed);
            },
        };
        let body = match reader.take(n as usize) {
            Ok(b) => b,
            Err(_) => {
                return Err(MqttError::Malformed);
            },
        };
        match VariableHeaderProperties::from_be_bytes(body.as_slice()) {
            Ok(props) => Ok(props),
            Err(_) => Err(MqttError::Malformed),
        }
    }
}

/// Decode one property from a packet body.
fn read_property(reader: &mut ByteReader) -> (res: Result<VariableHeaderProperty, MqttError>)
    requires
        old(reader).wf(),
    ensures
        final(reader).wf(),
        final(reader).data == old(reader).data,
        match parse_property(old(reader).remaining()) {
            Some((pv, rest)) => (res matches Ok(p) && p@ == pv) && final(reader).remaining()
                == rest,
            None => res == Err::<VariableHeaderProperty, MqttError>(MqttError::Malformed),
        },
{
    let id = match reader.read_u8() {
        Ok(id) => id,
        Err(_) => {
            return Err(MqttError::Malformed);
        },
    };
    if id == 0x01 {
        match reader.read_u8() {
            Ok(v) => Ok(VariableHeaderProperty::PayloadFormatIndicator(v)),
            Err(_) => Err(MqttError::Malformed),
        }
    } else if id == 0x02 {
        match reader.read_u32() {
            Ok(v) => Ok(VariableHeaderProperty::MessageExpiryInterval(v)),
            Err(_) => Err(MqttError::Malformed),
        }
    } else if id == 0x03 {
        match reader.read_string() {
            Ok(s) => Ok(VariableHeaderProperty::ContentType(s)),
            Err(_) => Err(MqttError::Malformed),
        }
    } else if id == 0x08 {
        match reader.read_string() {
            Ok(s) => Ok(VariableHeaderProperty::ResponseTopic(s)),
            Err(_) => Err(MqttError::Malformed),
        }
    } else if id == 0x09 {
        match reader.read_binary() {
            Ok(b) => Ok(VariableHeaderProperty::CorrelationData(b)),
            Err(_) => Err(MqttError::Malformed),
        }
    } else if id == 0x0B {
        match reader.read_vbi() {
            Ok(v) => Ok(VariableHeaderProperty::SubscriptionIdentifier(v)),
            Err(_) => Err(MqttError::Malformed),
        }
    } else if id == 0x11 {
        match reader.read_u32() {
            Ok(v) => Ok(VariableHeaderProperty::SessionExpiryInterval(v)),
            Err(_) => Err(MqttError::Malformed),
        }
    } else if id == 0x12 {
        match reader.read_string() {
            Ok(s) => Ok(VariableHeaderProperty::AssignedClientIdentifier(s)),
            Err(_) => Err(MqttError::Malformed),
        }
    } else if id == 0x13 {
        match reader.read_u16() {
            Ok(v) => Ok(VariableHeaderProperty::ServerKeepAlive(v)),
            Err(_) => Err(MqttError::Malformed),
        }
    } else if id == 0x15 {
        match reader.read_string() {
            Ok(s) => Ok(VariableHeaderProperty::AuthenticationMethod(s)),
            Err(_) => Err(MqttError::Malformed),
        }
    } else if id == 0x16 {
        match reader.read_binary() {
            Ok(b) => Ok(VariableHeaderProperty::AuthenticationData(b)),
            Err(_) => Err(MqttError::Malformed),
        }
    } else if id == 0x17 {
        match reader.read_u8() {
            Ok(v) => Ok(VariableHeaderProperty::RequestProblemInformation(v)),
            Err(_) => Err(MqttError::Malformed),
        }
    } else if id == 0x19 {
        match reader.read_u8() {
            Ok(v) => Ok(VariableHeaderProperty::RequestResponseInformation(v)),
            Err(_) => Err(MqttError::Malformed),
        }
    } else if id == 0x1A {
        match reader.read_string() {
            Ok(s) => Ok(VariableHeaderProperty::ResponseInformation(s)),
            Err(_) => Err(MqttError::Malformed),
        }
    } else if id == 0x1C {
        match reader.read_string() {
            Ok(s) => Ok(VariableHeaderProperty::ServerReference(s)),
            Err(_) => Err(MqttError::Malformed),
        }
    } else if id == 0x1F {
        match reader.read_string() {
            Ok(s) => Ok(VariableHeaderProperty::ReasonString(s)),
            Err(_) => Err(MqttError::Malformed),
        }
    } else if id == 0x21 {
        match reader.read_u16() {
            Ok(v) => Ok(VariableHeaderProperty::ReceiveMaximum(v)),
            Err(_) => Err(MqttError::Malformed),
        }
    } else if id == 0x22 {
        match reader.read_u16() {
            Ok(v) => Ok(VariableHeaderProperty::TopicAliasMaximum(v)),
            Err(_) => Err(MqttError::Malformed),
        }
    } else if id == 0x24 {
        match reader.read_u8() {
            Ok(v) => Ok(VariableHeaderProperty::MaximumQos(v)),
            Err(_) => Err(MqttError::Malformed),
        }
    } else if id == 0x25 {
        match reader.read_u8() {
            Ok(v) => Ok(VariableHeaderProperty::RetainAvailable(v)),
            Err(_) => Err(MqttError::Malformed),
        }
    } else if id == 0x26 {
        let k = match reader.read_string() {
            Ok(k) => k,
            Err(_) => {
                return Err(MqttError::Malformed);
            },
        };
        match reader.read_string() {
            Ok(v) => Ok(VariableHeaderProperty::UserProperty(k, v)),
            Err(_) => Err(MqttError::Malformed),
        }
    } else if id == 0x27 {
        match reader.read_u32() {
            Ok(v) => Ok(VariableHeaderProperty::MaximumPacketSize(v)),
            Err(_) => Err(MqttError::Malformed),
        }
    } else if id == 0x28 {
        match reader.read_u8() {
            Ok(v) => Ok(VariableHeaderProperty::WildcardSubscriptionAvailable(v)),
            Err(_) => Err(MqttError::Malformed),
        }
    } else if id == 0x29 {
        match reader.read_u8() {
            Ok(v) => Ok(VariableHeaderProperty::SubscriptionIdentifiersAvailable(v)),
            Err(_) => Err(MqttError::Malformed),
        }
    } else if id == 0x2A {
        match reader.read_u8() {
            Ok(v) => Ok(VariableHeaderProperty::SharedSubscriptionAvailable(v)),
            Err(_) => Err(MqttError::Malformed),
        }
    } else {
        Err(MqttError::Malformed)
    }
}

/// Encode a string-valued property: the shared id-then-string shape.
fn encode_string_property(out: &mut Vec<u8>, id: u8, s: &String, pv: Ghost<PropertyView>) -> (r:
    Result<(), MqttError>)
    requires
        spec_property_id(pv@) == id,
        spec_property_payload(pv@) == spec_string_bytes(s@),
        property_fits(pv@) == string_fits(s@),
    ensures
        if property_fits(pv@) {
            r == Ok::<(), MqttError>(()) && final(out)@ == old(out)@ + spec_property_bytes(pv@)
        } else {
            r == Err::<(), MqttError>(MqttError::BadArgument) && final(out)@ == old(out)@
        },
{
    if s.as_str().as_bytes_vec().len() > STRING_MAX {
        return Err(MqttError::BadArgument);
    }
    write_u8(out, id);
    let r1 = write_string(out, s.as_str());
    assert(r1 == Ok::<(), MqttError>(()));
    assert(final(out)@ =~= old(out)@ + spec_property_bytes(pv@));
    Ok(())
}

/// Encode a binary-valued property: the shared id-then-bytes shape.
fn encode_binary_property(out: &mut Vec<u8>, id: u8, b: &Vec<u8>, pv: Ghost<PropertyView>) -> (r:
    Result<(), MqttError>)
    requires
        spec_property_id(pv@) == id,
        spec_property_payload(pv@) == spec_binary_bytes(b@),
        property_fits(pv@) == binary_fits(b@),
    ensures
        if property_fits(pv@) {
            r == Ok::<(), MqttError>(()) && final(out)@ == old(out)@ + spec_property_bytes(pv@)
        } else {
            r == Err::<(), MqttError>(MqttError::BadArgument) && final(out)@ == old(out)@
        },
{
    if b.len() > STRING_MAX {
        return Err(MqttError::BadArgument);
    }
    write_u8(out, id);
    let r1 = write_binary(out, b);
    assert(r1 == Ok::<(), MqttError>(()));
    assert(final(out)@ =~= old(out)@ + spec_property_bytes(pv@));
    Ok(())
}

} // verus!
