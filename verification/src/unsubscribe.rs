//! UNSUBSCRIBE: the client's request to drop topic filters. Variable
//! header: packet identifier and properties (a user property is the
//! one this packet may carry); payload: one or more topic filters.

use vstd::prelude::*;
use crate::errors::MqttError;
use crate::fixed_header::{body_fits, spec_packet_bytes, write_packet, UNSUBSCRIBE_PACKET};
use crate::primitives::{
    lemma_string_round_trip, lemma_u16_round_trip, parse_string, parse_u16_be, spec_string_bytes,
    spec_u16_be, string_fits, write_bytes, write_string, write_u16_be, ByteReader,
};
use crate::properties::{
    lemma_property_set_round_trip, parse_property_set, property_set_fits, spec_property_set_bytes,
    PropertyView, VariableHeaderProperties, VariableHeaderProperty,
};

verus! {

/// An UNSUBSCRIBE packet.
#[derive(Debug)]
pub struct Unsubscribe {
    pub packet_identifier: u16,
    pub user_property: Option<(String, String)>,
    pub topic_filters: Vec<String>,
}

/// The mathematical model of an UNSUBSCRIBE.
#[verifier::ext_equal]
pub struct UnsubscribeView {
    pub packet_identifier: u16,
    pub user_property: Option<(Seq<char>, Seq<char>)>,
    pub topic_filters: Seq<Seq<char>>,
}

impl View for Unsubscribe {
    type V = UnsubscribeView;

    open spec fn view(&self) -> UnsubscribeView {
        UnsubscribeView {
            packet_identifier: self.packet_identifier,
            user_property: match self.user_property {
                Some((k, v)) => Some((k@, v@)),
                None => None,
            },
            topic_filters: self.topic_filters@.map_values(|f: String| f@),
        }
    }
}

/// The property list an UNSUBSCRIBE carries: its user property if
/// any.
pub open spec fn spec_unsubscribe_props(v: UnsubscribeView) -> Seq<PropertyView> {
    match v.user_property {
        Some((k, val)) => seq![PropertyView::UserProperty(k, val)],
        None => Seq::empty(),
    }
}

/// Recover the optional user property from a decoded property list;
/// anything else is malformed here.
pub open spec fn unsubscribe_opts_of_props(ps: Seq<PropertyView>) -> Option<
    Option<(Seq<char>, Seq<char>)>,
> {
    if ps.len() == 0 {
        Some(None)
    } else if ps.len() == 1 {
        match ps[0] {
            PropertyView::UserProperty(k, v) => Some(Some((k, v))),
            _ => None,
        }
    } else {
        None
    }
}

/// Wire form of the payload: the filters in order.
pub open spec fn spec_unsub_filters_bytes(fs: Seq<Seq<char>>) -> Seq<u8>
    decreases fs.len(),
{
    if fs.len() == 0 {
        Seq::empty()
    } else {
        spec_string_bytes(fs[0]) + spec_unsub_filters_bytes(fs.drop_first())
    }
}

/// Read topic filters until the payload is exhausted.
pub open spec fn parse_unsub_filters(s: Seq<u8>) -> Option<Seq<Seq<char>>>
    decreases s.len(),
{
    if s.len() == 0 {
        Some(Seq::empty())
    } else {
        match parse_string(s) {
            Some((t, r1)) => if r1.len() < s.len() {
                match parse_unsub_filters(r1) {
                    Some(fs) => Some(seq![t] + fs),
                    None => None,
                }
            } else {
                None
            },
            None => None,
        }
    }
}

/// Every filter fits its wire field.
pub open spec fn unsub_filters_fit(fs: Seq<Seq<char>>) -> bool {
    forall|i: int| 0 <= i < fs.len() ==> string_fits(#[trigger] fs[i])
}

/// Body of an UNSUBSCRIBE: packet identifier, properties, filters.
pub open spec fn spec_unsubscribe_body(v: UnsubscribeView) -> Seq<u8> {
    spec_u16_be(v.packet_identifier) + spec_property_set_bytes(spec_unsubscribe_props(v))
        + spec_unsub_filters_bytes(v.topic_filters)
}

/// A whole UNSUBSCRIBE packet.
pub open spec fn spec_unsubscribe_packet_bytes(v: UnsubscribeView) -> Seq<u8> {
    spec_packet_bytes(UNSUBSCRIBE_PACKET, spec_unsubscribe_body(v))
}

/// Whether an UNSUBSCRIBE can be framed: at least one filter, every
/// field in range.
pub open spec fn unsubscribe_fits(v: UnsubscribeView) -> bool {
    &&& v.topic_filters.len() >= 1
    &&& unsub_filters_fit(v.topic_filters)
    &&& property_set_fits(spec_unsubscribe_props(v))
    &&& body_fits(spec_unsubscribe_body(v))
}

/// Read an UNSUBSCRIBE body, consuming it exactly; an empty filter
/// list is malformed.
pub open spec fn parse_unsubscribe_body(s: Seq<u8>) -> Option<UnsubscribeView> {
    match parse_u16_be(s) {
        Some((pid, r1)) => match parse_property_set(r1) {
            Some((ps, r2)) => match unsubscribe_opts_of_props(ps) {
                Some(up) => match parse_unsub_filters(r2) {
                    Some(fs) => if fs.len() >= 1 {
                        Some(
                            UnsubscribeView {
                                packet_identifier: pid,
                                user_property: up,
                                topic_filters: fs,
                            },
                        )
                    } else {
                        None
                    },
                    None => None,
                },
                None => None,
            },
            None => None,
        },
        None => None,
    }
}

/// Appending one filter to the payload appends its encoding.
pub proof fn lemma_unsub_filters_bytes_snoc(fs: Seq<Seq<char>>, f: Seq<char>)
    ensures
        spec_unsub_filters_bytes(fs.push(f)) == spec_unsub_filters_bytes(fs) + spec_string_bytes(
            f,
        ),
    decreases fs.len(),
{
    if fs.len() == 0 {
        assert(fs.push(f)[0] == f);
        assert(fs.push(f).drop_first() =~= Seq::<Seq<char>>::empty());
        assert(spec_unsub_filters_bytes(Seq::<Seq<char>>::empty()) == Seq::<u8>::empty());
        assert(spec_unsub_filters_bytes(fs.push(f)) =~= spec_unsub_filters_bytes(fs)
            + spec_string_bytes(f));
    } else {
        let a = spec_string_bytes(fs[0]);
        let b = spec_unsub_filters_bytes(fs.drop_first());
        let c = spec_string_bytes(f);
        assert(fs.push(f)[0] == fs[0]);
        assert(fs.push(f).drop_first() =~= fs.drop_first().push(f));
        lemma_unsub_filters_bytes_snoc(fs.drop_first(), f);
        assert(spec_unsub_filters_bytes(fs.push(f)) == a + (b + c));
        assert(a + (b + c) =~= (a + b) + c);
    }
}

/// Decoding an encoded payload yields the filters back, in order.
pub proof fn lemma_unsub_filters_round_trip(fs: Seq<Seq<char>>)
    requires
        unsub_filters_fit(fs),
    ensures
        parse_unsub_filters(spec_unsub_filters_bytes(fs)) == Some(fs),
    decreases fs.len(),
{
    if fs.len() == 0 {
        assert(fs =~= Seq::<Seq<char>>::empty());
    } else {
        let f = fs[0];
        let tail = fs.drop_first();
        let s = spec_unsub_filters_bytes(fs);
        assert(unsub_filters_fit(tail)) by {
            assert(forall|i: int|
                0 <= i < tail.len() ==> tail[i] == #[trigger] fs[i + 1] && string_fits(fs[i + 1]));
        }
        lemma_unsub_filters_round_trip(tail);
        let rest1 = spec_unsub_filters_bytes(tail);
        assert(s =~= spec_string_bytes(f) + rest1);
        lemma_string_round_trip(f, rest1);
        assert(s.len() >= 2);
        assert(seq![f] + tail =~= fs);
    }
}

/// Decoding an encoded UNSUBSCRIBE body yields the packet back.
pub proof fn lemma_unsubscribe_round_trip(v: UnsubscribeView)
    requires
        unsubscribe_fits(v),
    ensures
        parse_unsubscribe_body(spec_unsubscribe_body(v)) == Some(v),
{
    let props = spec_unsubscribe_props(v);
    let pset = spec_property_set_bytes(props);
    let filters = spec_unsub_filters_bytes(v.topic_filters);
    let s = spec_unsubscribe_body(v);
    assert(s =~= spec_u16_be(v.packet_identifier) + (pset + filters));
    lemma_u16_round_trip(v.packet_identifier, pset + filters);
    lemma_property_set_round_trip(props, filters);
    assert(unsubscribe_opts_of_props(props) == Some(v.user_property)) by {
        match v.user_property {
            Some((k, val)) => {
                assert(props =~= seq![PropertyView::UserProperty(k, val)]);
            },
            None => {
                assert(props =~= Seq::<PropertyView>::empty());
            },
        }
    }
    lemma_unsub_filters_round_trip(v.topic_filters);
    assert(parse_unsubscribe_body(s) matches Some(got) && got =~= v);
}

impl Unsubscribe {
    /// Serialise the packet, fixed header included; `BadArgument`
    /// exactly when the filter list is empty or a field outgrows its
    /// wire form.
    #[verifier::loop_isolation(false)]
    pub fn write_to(&self, out: &mut Vec<u8>) -> (r: Result<(), MqttError>)
        ensures
            if unsubscribe_fits(self@) {
                r == Ok::<(), MqttError>(()) && final(out)@ == old(out)@
                    + spec_unsubscribe_packet_bytes(self@)
            } else {
                r == Err::<(), MqttError>(MqttError::BadArgument) && final(out)@ == old(out)@
            },
    {
        if self.topic_filters.len() == 0 {
            assert(self@.topic_filters.len() == 0);
            return Err(MqttError::BadArgument);
        }
        let mut props = VariableHeaderProperties::new();
        match &self.user_property {
            Some((k, v)) => {
                props.add_property_user_property(k.clone(), v.clone());
            },
            None => {},
        }
        assert(props@ =~= spec_unsubscribe_props(self@));
        let pset = match props.as_bytes() {
            Ok(b) => b,
            Err(_) => {
                return Err(MqttError::BadArgument);
            },
        };
        let mut body: Vec<u8> = Vec::new();
        write_u16_be(&mut body, self.packet_identifier);
        write_bytes(&mut body, pset.as_slice());
        let ghost fsv = self@.topic_filters;
        assert(body@ =~= spec_u16_be(self@.packet_identifier) + spec_property_set_bytes(
            spec_unsubscribe_props(self@),
        ) + spec_unsub_filters_bytes(fsv.take(0)));
        let mut i: usize = 0;
        while i < self.topic_filters.len()
            invariant
                i <= self.topic_filters@.len(),
                fsv == self@.topic_filters,
                fsv.len() == self.topic_filters@.len(),
                body@ == spec_u16_be(self@.packet_identifier) + spec_property_set_bytes(
                    spec_unsubscribe_props(self@),
                ) + spec_unsub_filters_bytes(fsv.take(i as int)),
                unsub_filters_fit(fsv.take(i as int)),
            decreases self.topic_filters@.len() - i,
        {
            assert(self.topic_filters@[i as int]@ == fsv[i as int]);
            let ghost before = body@;
            match write_string(&mut body, self.topic_filters[i].as_str()) {
                Ok(()) => {},
                Err(_) => {
                    proof {
                        let j = i as int;
                        assert(!string_fits(fsv[j]));
                        assert(!unsubscribe_fits(self@));
                    }
                    return Err(MqttError::BadArgument);
                },
            }
            proof {
                lemma_unsub_filters_bytes_snoc(fsv.take(i as int), fsv[i as int]);
                assert(fsv.take(i as int).push(fsv[i as int]) =~= fsv.take(i as int + 1));
                assert(body@ =~= before + spec_string_bytes(fsv[i as int]));
            }
            i = i + 1;
        }
        assert(fsv.take(fsv.len() as int) =~= fsv);
        assert(body@ =~= spec_unsubscribe_body(self@));
        write_packet(out, UNSUBSCRIBE_PACKET, &body)
    }

    /// Decode an UNSUBSCRIBE body of `remaining_length` bytes, the
    /// fixed header already read.
    #[verifier::loop_isolation(false)]
    pub fn read_from(reader: &mut ByteReader, remaining_length: u32) -> (r: Result<
        Unsubscribe,
        MqttError,
    >)
        requires
            old(reader).wf(),
        ensures
            final(reader).wf(),
            final(reader).data == old(reader).data,
            old(reader).remaining().len() < remaining_length ==> r == Err::<
                Unsubscribe,
                MqttError,
            >(MqttError::Malformed) && *final(reader) == *old(reader),
            old(reader).remaining().len() >= remaining_length ==> {
                &&& final(reader).remaining() == old(reader).remaining().skip(
                    remaining_length as int,
                )
                &&& match parse_unsubscribe_body(
                    old(reader).remaining().take(remaining_length as int),
                ) {
                    Some(v) => r matches Ok(p) && p@ == v,
                    None => r == Err::<Unsubscribe, MqttError>(MqttError::Malformed),
                }
            },
    {
        let body = match reader.take(remaining_length as usize) {
            Ok(b) => b,
            Err(_) => {
                return Err(MqttError::Malformed);
            },
        };
        let mut br = ByteReader::new(body);
        let packet_identifier = match br.read_u16() {
            Ok(p) => p,
            Err(_) => {
                return Err(MqttError::Malformed);
            },
        };
        let props = match VariableHeaderProperties::read_from(&mut br) {
            Ok(p) => p,
            Err(_) => {
                return Err(MqttError::Malformed);
            },
        };
        let n = props.properties.len();
        let user_property: Option<(String, String)> = if n == 0 {
            None
        } else if n == 1 {
            match &props.properties[0] {
                VariableHeaderProperty::UserProperty(k, v) => Some((k.clone(), v.clone())),
                _ => {
                    return Err(MqttError::Malformed);
                },
            }
        } else {
            return Err(MqttError::Malformed);
        };
        let ghost rest0 = br.remaining();
        let mut topic_filters: Vec<String> = Vec::new();
        proof {
            assert(topic_filters@.map_values(|f: String| f@) =~= Seq::<Seq<char>>::empty());
        }
        while br.pos < br.data.len()
            invariant
                br.wf(),
                match parse_unsub_filters(br.remaining()) {
                    Some(fs) => parse_unsub_filters(rest0) == Some(
                        topic_filters@.map_values(|f: String| f@) + fs,
                    ),
                    None => parse_unsub_filters(rest0) == None::<Seq<Seq<char>>>,
                },
            decreases br.remaining().len(),
        {
            let ghost s = br.remaining();
            let ghost acc = topic_filters@.map_values(|f: String| f@);
            let filter = match br.read_string() {
                Ok(t) => t,
                Err(_) => {
                    return Err(MqttError::Malformed);
                },
            };
            proof {
                let (t, r1) = parse_string(s).unwrap();
                assert(r1.len() < s.len());
                assert(parse_unsub_filters(s) == match parse_unsub_filters(r1) {
                    Some(fs) => Some(seq![filter@] + fs),
                    None => None::<Seq<Seq<char>>>,
                });
                if let Some(fs) = parse_unsub_filters(r1) {
                    assert(acc + (seq![filter@] + fs) =~= (acc + seq![filter@]) + fs);
                    assert(topic_filters@.push(filter).map_values(|g: String| g@) =~= acc + seq![
                        filter@,
                    ]);
                }
            }
            topic_filters.push(filter);
        }
        assert(br.remaining().len() == 0);
        proof {
            let acc = topic_filters@.map_values(|f: String| f@);
            assert(acc + Seq::<Seq<char>>::empty() =~= acc);
        }
        if topic_filters.len() == 0 {
            return Err(MqttError::Malformed);
        }
        let r = Unsubscribe { packet_identifier, user_property, topic_filters };
        assert(parse_unsubscribe_body(old(reader).remaining().take(remaining_length as int))
            matches Some(v) && r@ =~= v);
        Ok(r)
    }
}

} // verus!
