//! SUBSCRIBE: the client's request for topic filters. Variable
//! header: packet identifier, then properties (a subscription
//! identifier and a user property are the ones this packet may
//! carry); payload: one or more topic filters, each followed by its
//! subscription-options byte.

use vstd::prelude::*;
use crate::errors::MqttError;
use crate::fixed_header::{body_fits, spec_packet_bytes, write_packet, SUBSCRIBE_PACKET};
use crate::primitives::{
    lemma_string_round_trip, lemma_u16_round_trip, parse_string, parse_u16_be, parse_u8,
    spec_string_bytes, spec_u16_be, string_fits, write_bytes, write_string, write_u16_be, write_u8,
    ByteReader,
};
use crate::properties::{
    lemma_property_set_round_trip, parse_property_set, property_set_fits, spec_property_set_bytes,
    PropertyView, VariableHeaderProperties, VariableHeaderProperty,
};

verus! {

/// One requested subscription: a topic filter and its options byte
/// (bits 0-1 maximum QoS, bit 2 no-local, bit 3 retain-as-published,
/// bits 4-5 retain handling, bits 6-7 reserved zero).
#[derive(Debug)]
pub struct SubscriptionType {
    pub topic_filter: String,
    pub subscription_options: u8,
}

/// The mathematical model of one subscription entry.
#[verifier::ext_equal]
pub struct SubscriptionView {
    pub topic_filter: Seq<char>,
    pub subscription_options: u8,
}

impl View for SubscriptionType {
    type V = SubscriptionView;

    open spec fn view(&self) -> SubscriptionView {
        SubscriptionView {
            topic_filter: self.topic_filter@,
            subscription_options: self.subscription_options,
        }
    }
}

/// Everything a SUBSCRIBE carries.
#[derive(Debug)]
pub struct SubscribeProperties {
    pub packet_identifier: u16,
    pub subscription_identifier: Option<u32>,
    pub user_property: Option<(String, String)>,
    pub topic_filters: Vec<SubscriptionType>,
}

/// The mathematical model of a SUBSCRIBE.
#[verifier::ext_equal]
pub struct SubscribeView {
    pub packet_identifier: u16,
    pub subscription_identifier: Option<u32>,
    pub user_property: Option<(Seq<char>, Seq<char>)>,
    pub topic_filters: Seq<SubscriptionView>,
}

impl View for SubscribeProperties {
    type V = SubscribeView;

    open spec fn view(&self) -> SubscribeView {
        SubscribeView {
            packet_identifier: self.packet_identifier,
            subscription_identifier: self.subscription_identifier,
            user_property: match self.user_property {
                Some((k, v)) => Some((k@, v@)),
                None => None,
            },
            topic_filters: self.topic_filters@.map_values(|f: SubscriptionType| f@),
        }
    }
}

/// A SUBSCRIBE packet.
#[derive(Debug)]
pub struct _Subscribe {
    pub properties: SubscribeProperties,
}

impl View for _Subscribe {
    type V = SubscribeView;

    open spec fn view(&self) -> SubscribeView {
        self.properties@
    }
}

/// The property list a SUBSCRIBE carries: its subscription identifier
/// if any, then its user property if any.
pub open spec fn spec_subscribe_props(v: SubscribeView) -> Seq<PropertyView> {
    (match v.subscription_identifier {
        Some(i) => seq![PropertyView::SubscriptionIdentifier(i)],
        None => Seq::empty(),
    }) + (match v.user_property {
        Some((k, val)) => seq![PropertyView::UserProperty(k, val)],
        None => Seq::empty(),
    })
}

/// Recover the two optional fields from a decoded property list;
/// any other property, repetition or order is malformed here.
pub open spec fn subscribe_opts_of_props(ps: Seq<PropertyView>) -> Option<
    (Option<u32>, Option<(Seq<char>, Seq<char>)>),
> {
    if ps.len() == 0 {
        Some((None, None))
    } else if ps.len() == 1 {
        match ps[0] {
            PropertyView::SubscriptionIdentifier(i) => Some((Some(i), None)),
            PropertyView::UserProperty(k, v) => Some((None, Some((k, v)))),
            _ => None,
        }
    } else if ps.len() == 2 {
        match (ps[0], ps[1]) {
            (PropertyView::SubscriptionIdentifier(i), PropertyView::UserProperty(k, v)) => Some(
                (Some(i), Some((k, v))),
            ),
            _ => None,
        }
    } else {
        None
    }
}

/// Reserved option bits 6-7 must be zero and retain handling must be
/// 0, 1 or 2.
pub open spec fn subscription_opts_ok(o: u8) -> bool {
    o < 64 && (o / 16) % 4 != 3
}

/// Wire form of one subscription entry: the filter, then the options.
pub open spec fn spec_filter_bytes(f: SubscriptionView) -> Seq<u8> {
    spec_string_bytes(f.topic_filter) + seq![f.subscription_options]
}

/// Wire form of the payload: the entries in order.
pub open spec fn spec_filters_bytes(fs: Seq<SubscriptionView>) -> Seq<u8>
    decreases fs.len(),
{
    if fs.len() == 0 {
        Seq::empty()
    } else {
        spec_filter_bytes(fs[0]) + spec_filters_bytes(fs.drop_first())
    }
}

/// Read subscription entries until the payload is exhausted.
pub open spec fn parse_filters(s: Seq<u8>) -> Option<Seq<SubscriptionView>>
    decreases s.len(),
{
    if s.len() == 0 {
        Some(Seq::empty())
    } else {
        match parse_string(s) {
            Some((t, r1)) => match parse_u8(r1) {
                Some((o, r2)) => if subscription_opts_ok(o) && r2.len() < s.len() {
                    match parse_filters(r2) {
                        Some(fs) => Some(
                            seq![SubscriptionView { topic_filter: t, subscription_options: o }]
                                + fs,
                        ),
                        None => None,
                    }
                } else {
                    None
                },
                None => None,
            },
            None => None,
        }
    }
}

/// One entry fits its wire fields and has lawful options.
pub open spec fn filter_ok(f: SubscriptionView) -> bool {
    string_fits(f.topic_filter) && subscription_opts_ok(f.subscription_options)
}

/// Every entry fits its wire fields and has lawful options.
pub open spec fn filters_fit(fs: Seq<SubscriptionView>) -> bool {
    forall|i: int| 0 <= i < fs.len() ==> filter_ok(#[trigger] fs[i])
}

/// Body of a SUBSCRIBE: packet identifier, properties, entries.
pub open spec fn spec_subscribe_body(v: SubscribeView) -> Seq<u8> {
    spec_u16_be(v.packet_identifier) + spec_property_set_bytes(spec_subscribe_props(v))
        + spec_filters_bytes(v.topic_filters)
}

/// A whole SUBSCRIBE packet.
pub open spec fn spec_subscribe_packet_bytes(v: SubscribeView) -> Seq<u8> {
    spec_packet_bytes(SUBSCRIBE_PACKET, spec_subscribe_body(v))
}

/// Whether a SUBSCRIBE can be framed: at least one entry, every
/// entry lawful, the properties in range.
pub open spec fn subscribe_fits(v: SubscribeView) -> bool {
    &&& v.topic_filters.len() >= 1
    &&& filters_fit(v.topic_filters)
    &&& property_set_fits(spec_subscribe_props(v))
    &&& body_fits(spec_subscribe_body(v))
}

/// Read a SUBSCRIBE body, consuming it exactly; an empty entry list
/// is malformed.
pub open spec fn parse_subscribe_body(s: Seq<u8>) -> Option<SubscribeView> {
    match parse_u16_be(s) {
        Some((pid, r1)) => match parse_property_set(r1) {
            Some((ps, r2)) => match subscribe_opts_of_props(ps) {
                Some((si, up)) => match parse_filters(r2) {
                    Some(fs) => if fs.len() >= 1 {
                        Some(
                            SubscribeView {
                                packet_identifier: pid,
                                subscription_identifier: si,
                                user_property: up,
                                topic_filters: fs,
                            },
                        )
                    } else {
                        None
                    },
                    None => None,
                },
                None => None,
            },
            None => None,
        },
        None => None,
    }
}

/// Appending one entry to the payload appends its encoding.
pub proof fn lemma_filters_bytes_snoc(fs: Seq<SubscriptionView>, f: SubscriptionView)
    ensures
        spec_filters_bytes(fs.push(f)) == spec_filters_bytes(fs) + spec_filter_bytes(f),
    decreases fs.len(),
{
    if fs.len() == 0 {
        assert(fs.push(f)[0] == f);
        assert(fs.push(f).drop_first() =~= Seq::<SubscriptionView>::empty());
        assert(spec_filters_bytes(Seq::<SubscriptionView>::empty()) == Seq::<u8>::empty());
        assert(spec_filters_bytes(fs.push(f)) =~= spec_filters_bytes(fs) + spec_filter_bytes(f));
    } else {
        let a = spec_filter_bytes(fs[0]);
        let b = spec_filters_bytes(fs.drop_first());
        let c = spec_filter_bytes(f);
        assert(fs.push(f)[0] == fs[0]);
        assert(fs.push(f).drop_first() =~= fs.drop_first().push(f));
        lemma_filters_bytes_snoc(fs.drop_first(), f);
        assert(spec_filters_bytes(fs.push(f)) == a + (b + c));
        assert(a + (b + c) =~= (a + b) + c);
    }
}

/// Decoding an encoded payload yields the entries back, in order.
pub proof fn lemma_filters_round_trip(fs: Seq<SubscriptionView>)
    requires
        filters_fit(fs),
    ensures
        parse_filters(spec_filters_bytes(fs)) == Some(fs),
    decreases fs.len(),
{
    if fs.len() == 0 {
        assert(fs =~= Seq::<SubscriptionView>::empty());
    } else {
        let f = fs[0];
        let tail = fs.drop_first();
        let s = spec_filters_bytes(fs);
        assert(filters_fit(tail)) by {
            assert(forall|i: int|
                0 <= i < tail.len() ==> tail[i] == #[trigger] fs[i + 1] && filter_ok(fs[i + 1]));
        }
        lemma_filters_round_trip(tail);
        let rest1 = seq![f.subscription_options] + spec_filters_bytes(tail);
        assert(s =~= spec_string_bytes(f.topic_filter) + rest1);
        lemma_string_round_trip(f.topic_filter, rest1);
        assert(rest1.skip(1) =~= spec_filters_bytes(tail));
        assert(rest1[0] == f.subscription_options);
        assert(s.len() >= 3);
        assert(seq![f] + tail =~= fs);
    }
}

/// Decoding an encoded SUBSCRIBE body yields the packet back.
pub proof fn lemma_subscribe_round_trip(v: SubscribeView)
    requires
        subscribe_fits(v),
    ensures
        parse_subscribe_body(spec_subscribe_body(v)) == Some(v),
{
    let props = spec_subscribe_props(v);
    let pset = spec_property_set_bytes(props);
    let filters = spec_filters_bytes(v.topic_filters);
    let s = spec_subscribe_body(v);
    assert(s =~= spec_u16_be(v.packet_identifier) + (pset + filters));
    lemma_u16_round_trip(v.packet_identifier, pset + filters);
    lemma_property_set_round_trip(props, filters);
    assert(subscribe_opts_of_props(props) == Some(
        (v.subscription_identifier, v.user_property),
    )) by {
        match (v.subscription_identifier, v.user_property) {
            (Some(i), Some((k, val))) => {
                assert(props =~= seq![
                    PropertyView::SubscriptionIdentifier(i),
                    PropertyView::UserProperty(k, val),
                ]);
            },
            (Some(i), None) => {
                assert(props =~= seq![PropertyView::SubscriptionIdentifier(i)]);
            },
            (None, Some((k, val))) => {
                assert(props =~= seq![PropertyView::UserProperty(k, val)]);
            },
            (None, None) => {
                assert(props =~= Seq::<PropertyView>::empty());
            },
        }
    }
    lemma_filters_round_trip(v.topic_filters);
    assert(parse_subscribe_body(s) matches Some(got) && got =~= v);
}

impl _Subscribe {
    /// Wrap the request fields as a packet.
    pub fn _new(properties: SubscribeProperties) -> (r: _Subscribe)
        ensures
            r@ == properties@,
    {
        _Subscribe { properties }
    }

    /// Serialise the packet, fixed header included; `BadArgument`
    /// exactly when the entry list is empty, an entry is unlawful, or
    /// a field outgrows its wire form.
    #[verifier::loop_isolation(false)]
    pub fn write_to(&self, out: &mut Vec<u8>) -> (r: Result<(), MqttError>)
        ensures
            if subscribe_fits(self@) {
                r == Ok::<(), MqttError>(()) && final(out)@ == old(out)@
                    + spec_subscribe_packet_bytes(self@)
            } else {
                r == Err::<(), MqttError>(MqttError::BadArgument) && final(out)@ == old(out)@
            },
    {
        if self.properties.topic_filters.len() == 0 {
            assert(self@.topic_filters.len() == 0);
            return Err(MqttError::BadArgument);
        }
        let mut props = VariableHeaderProperties::new();
        match &self.properties.subscription_identifier {
            Some(i) => {
                props.add_property_subscription_identifier(*i);
            },
            None => {},
        }
        match &self.properties.user_property {
            Some((k, v)) => {
                props.add_property_user_property(k.clone(), v.clone());
            },
            None => {},
        }
        assert(props@ =~= spec_subscribe_props(self@));
        let pset = match props.as_bytes() {
            Ok(b) => b,
            Err(_) => {
                return Err(MqttError::BadArgument);
            },
        };
        let mut body: Vec<u8> = Vec::new();
        write_u16_be(&mut body, self.properties.packet_identifier);
        write_bytes(&mut body, pset.as_slice());
        let ghost fsv = self@.topic_filters;
        assert(body@ =~= spec_u16_be(self@.packet_identifier) + spec_property_set_bytes(
            spec_subscribe_props(self@),
        ) + spec_filters_bytes(fsv.take(0)));
        let mut i: usize = 0;
        while i < self.properties.topic_filters.len()
            invariant
                i <= self.properties.topic_filters@.len(),
                fsv == self@.topic_filters,
                fsv.len() == self.properties.topic_filters@.len(),
                body@ == spec_u16_be(self@.packet_identifier) + spec_property_set_bytes(
                    spec_subscribe_props(self@),
                ) + spec_filters_bytes(fsv.take(i as int)),
                filters_fit(fsv.take(i as int)),
                property_set_fits(spec_subscribe_props(self@)),
                self@.topic_filters.len() >= 1,
            decreases self.properties.topic_filters@.len() - i,
        {
            let f = &self.properties.topic_filters[i];
            assert(f@ == fsv[i as int]);
            let opts = f.subscription_options;
            if opts >= 64 || (opts / 16) % 4 == 3 {
                proof {
                    let j = i as int;
                    assert(!filter_ok(fsv[j]));
                    assert(!subscribe_fits(self@));
                }
                return Err(MqttError::BadArgument);
            }
            let ghost before = body@;
            match write_string(&mut body, f.topic_filter.as_str()) {
                Ok(()) => {},
                Err(_) => {
                    proof {
                        let j = i as int;
                        assert(!filter_ok(fsv[j]));
                        assert(!subscribe_fits(self@));
                    }
                    return Err(MqttError::BadArgument);
                },
            }
            write_u8(&mut body, opts);
            proof {
                lemma_filters_bytes_snoc(fsv.take(i as int), fsv[i as int]);
                assert(fsv.take(i as int).push(fsv[i as int]) =~= fsv.take(i as int + 1));
                assert(body@ =~= before + spec_filter_bytes(fsv[i as int]));
            }
            i = i + 1;
        }
        assert(fsv.take(fsv.len() as int) =~= fsv);
        assert(body@ =~= spec_subscribe_body(self@));
        write_packet(out, SUBSCRIBE_PACKET, &body)
    }

    /// Decode a SUBSCRIBE body of `remaining_length` bytes, the fixed
    /// header already read.
    #[verifier::loop_isolation(false)]
    pub fn read_from(reader: &mut ByteReader, remaining_length: u32) -> (r: Result<
        _Subscribe,
        MqttError,
    >)
        requires
            old(reader).wf(),
        ensures
            final(reader).wf(),
            final(reader).data == old(reader).data,
            old(reader).remaining().len() < remaining_length ==> r == Err::<_Subscribe, MqttError>(
                MqttError::Malformed,
            ) && *final(reader) == *old(reader),
            old(reader).remaining().len() >= remaining_length ==> {
                &&& final(reader).remaining() == old(reader).remaining().skip(
                    remaining_length as int,
                )
                &&& match parse_subscribe_body(
                    old(reader).remaining().take(remaining_length as int),
                ) {
                    Some(v) => r matches Ok(p) && p@ == v,
                    None => r == Err::<_Subscribe, MqttError>(MqttError::Malformed),
                }
            },
    {
        let body = match reader.take(remaining_length as usize) {
            Ok(b) => b,
            Err(_) => {
                return Err(MqttError::Malformed);
            },
        };
        let mut br = ByteReader::new(body);
        let packet_identifier = match br.read_u16() {
            Ok(p) => p,
            Err(_) => {
                return Err(MqttError::Malformed);
            },
        };
        let props = match VariableHeaderProperties::read_from(&mut br) {
            Ok(p) => p,
            Err(_) => {
                return Err(MqttError::Malformed);
            },
        };
        let n = props.properties.len();
        let (subscription_identifier, user_property): (Option<u32>, Option<(String, String)>) = if n
            == 0 {
            (None, None)
        } else if n == 1 {
            match &props.properties[0] {
                VariableHeaderProperty::SubscriptionIdentifier(i) => (Some(*i), None),
                VariableHeaderProperty::UserProperty(k, v) => (
                    None,
                    Some((k.clone(), v.clone())),
                ),
                _ => {
                    return Err(MqttError::Malformed);
                },
            }
        } else if n == 2 {
            let second: (String, String) = match &props.properties[1] {
                VariableHeaderProperty::UserProperty(k, v) => (k.clone(), v.clone()),
                _ => {
                    return Err(MqttError::Malformed);
                },
            };
            match &props.properties[0] {
                VariableHeaderProperty::SubscriptionIdentifier(i) => (
                    Some(*i),
                    Some(second),
                ),
                _ => {
                    return Err(MqttError::Malformed);
                },
            }
        } else {
            return Err(MqttError::Malformed);
        };
        let ghost rest0 = br.remaining();
        let mut topic_filters: Vec<SubscriptionType> = Vec::new();
        proof {
            assert(topic_filters@.map_values(|f: SubscriptionType| f@) =~= Seq::<
                SubscriptionView,
            >::empty());
        }
        while br.pos < br.data.len()
            invariant
                br.wf(),
                reader.wf(),
                reader.data == old(reader).data,
                old(reader).remaining().len() >= remaining_length,
                reader.remaining() == old(reader).remaining().skip(remaining_length as int),
                match parse_filters(br.remaining()) {
                    Some(fs) => parse_filters(rest0) == Some(
                        topic_filters@.map_values(|f: SubscriptionType| f@) + fs,
                    ),
                    None => parse_filters(rest0) == None::<Seq<SubscriptionView>>,
                },
            decreases br.remaining().len(),
        {
            let ghost s = br.remaining();
            let ghost acc = topic_filters@.map_values(|f: SubscriptionType| f@);
            let topic_filter = match br.read_string() {
                Ok(t) => t,
                Err(_) => {
                    return Err(MqttError::Malformed);
                },
            };
            let subscription_options = match br.read_u8() {
                Ok(o) => o,
                Err(_) => {
                    return Err(MqttError::Malformed);
                },
            };
            if subscription_options >= 64 || (subscription_options / 16) % 4 == 3 {
                return Err(MqttError::Malformed);
            }
            let f = SubscriptionType { topic_filter, subscription_options };
            proof {
                let (t, r1) = parse_string(s).unwrap();
                let (o, r2) = parse_u8(r1).unwrap();
                assert(r2.len() < s.len());
                assert(parse_filters(s) == match parse_filters(r2) {
                    Some(fs) => Some(seq![f@] + fs),
                    None => None::<Seq<SubscriptionView>>,
                });
                if let Some(fs) = parse_filters(r2) {
                    assert(acc + (seq![f@] + fs) =~= (acc + seq![f@]) + fs);
                    assert(topic_filters@.push(f).map_values(|g: SubscriptionType| g@) =~= acc
                        + seq![f@]);
                }
            }
            topic_filters.push(f);
        }
        assert(br.remaining().len() == 0);
        proof {
            let acc = topic_filters@.map_values(|f: SubscriptionType| f@);
            assert(acc + Seq::<SubscriptionView>::empty() =~= acc);
        }
        if topic_filters.len() == 0 {
            return Err(MqttError::Malformed);
        }
        let properties = SubscribeProperties {
            packet_identifier,
            subscription_identifier,
            user_property,
            topic_filters,
        };
        let r = _Subscribe { properties };
        assert(parse_subscribe_body(old(reader).remaining().take(remaining_length as int))
            matches Some(v) && r@ =~= v);
        Ok(r)
    }
}

} // verus!
