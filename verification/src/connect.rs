//! CONNECT: the session opener. Fixed prefix (protocol name "MQTT",
//! version 5), the connect flags, keep-alive, properties, then the
//! payload in fixed order: client identifier, the will (properties,
//! topic, payload) when the will flag is set, then username and
//! password when their flags are set.

use vstd::prelude::*;
use crate::errors::MqttError;
use crate::fixed_header::{body_fits, spec_packet_bytes, write_packet, CONNECT_PACKET};
use crate::primitives::{
    binary_fits, lemma_binary_round_trip, lemma_string_round_trip, lemma_u16_round_trip,
    parse_binary, parse_string, parse_u16_be, parse_u8, spec_binary_bytes, spec_string_bytes,
    spec_u16_be, string_fits, write_binary, write_bytes, write_string, write_u16_be, write_u8,
    ByteReader,
};
use crate::properties::{
    lemma_property_set_round_trip, parse_property_set, property_set_fits, spec_property_set_bytes,
    PropertyView, VariableHeaderProperties,
};

verus! {

/// The message the broker publishes on the client's behalf if the
/// session dies unexpectedly.
#[derive(Debug)]
pub struct Will {
    pub properties: VariableHeaderProperties,
    pub topic: String,
    pub payload: Vec<u8>,
    pub qos: u8,
    pub retain: bool,
}

/// The mathematical model of a will.
#[verifier::ext_equal]
pub struct WillView {
    pub properties: Seq<PropertyView>,
    pub topic: Seq<char>,
    pub payload: Seq<u8>,
    pub qos: u8,
    pub retain: bool,
}

impl View for Will {
    type V = WillView;

    open spec fn view(&self) -> WillView {
        WillView {
            properties: self.properties@,
            topic: self.topic@,
            payload: self.payload@,
            qos: self.qos,
            retain: self.retain,
        }
    }
}

/// A CONNECT packet.
#[derive(Debug)]
pub struct Connect {
    pub clean_start: bool,
    pub keep_alive: u16,
    pub properties: VariableHeaderProperties,
    pub client_id: String,
    pub will: Option<Will>,
    pub username: Option<String>,
    pub password: Option<Vec<u8>>,
}

/// The mathematical model of a CONNECT.
#[verifier::ext_equal]
pub struct ConnectView {
    pub clean_start: bool,
    pub keep_alive: u16,
    pub properties: Seq<PropertyView>,
    pub client_id: Seq<char>,
    pub will: Option<WillView>,
    pub username: Option<Seq<char>>,
    pub password: Option<Seq<u8>>,
}

impl View for Connect {
    type V = ConnectView;

    open spec fn view(&self) -> ConnectView {
        ConnectView {
            clean_start: self.clean_start,
            keep_alive: self.keep_alive,
            properties: self.properties@,
            client_id: self.client_id@,
            will: match self.will {
                Some(w) => Some(w@),
                None => None,
            },
            username: match self.username {
                Some(u) => Some(u@),
                None => None,
            },
            password: match self.password {
                Some(p) => Some(p@),
                None => None,
            },
        }
    }
}

/// The seven bytes every CONNECT starts with: the protocol name
/// "MQTT" as a length-prefixed string, then the version byte 5.
pub open spec fn protocol_prefix() -> Seq<u8> {
    seq![0u8, 4u8, 0x4Du8, 0x51u8, 0x54u8, 0x54u8, 5u8]
}

/// The connect flags byte: bit 7 username, bit 6 password, bit 5 will
/// retain, bits 4-3 will QoS, bit 2 will flag, bit 1 clean start, bit
/// 0 reserved zero.
#[verifier::opaque]
pub open spec fn spec_connect_flags(v: ConnectView) -> u8 {
    ((if v.username is Some {
        128int
    } else {
        0int
    }) + (if v.password is Some {
        64int
    } else {
        0int
    }) + (match v.will {
        Some(w) => (if w.retain {
            32int
        } else {
            0int
        }) + (w.qos as int) * 8 + 4,
        None => 0int,
    }) + (if v.clean_start {
        2int
    } else {
        0int
    })) as u8
}

/// Lawful flag combinations: reserved bit clear, will QoS at most 2,
/// and will QoS and retain clear when no will is present.
pub open spec fn connect_flags_ok(flags: u8) -> bool {
    &&& flags % 2 == 0
    &&& (flags / 8) % 4 <= 2
    &&& ((flags / 4) % 2 == 0 ==> (flags / 8) % 4 == 0 && (flags / 32) % 2 == 0)
}

/// The will's wire form inside the payload: properties, topic,
/// payload bytes.
pub open spec fn spec_will_bytes(w: WillView) -> Seq<u8> {
    spec_property_set_bytes(w.properties) + spec_string_bytes(w.topic) + spec_binary_bytes(
        w.payload,
    )
}

/// Body of a CONNECT: prefix, flags, keep-alive, properties, then the
/// payload fields in their fixed order.
pub open spec fn spec_connect_body(v: ConnectView) -> Seq<u8> {
    protocol_prefix() + seq![spec_connect_flags(v)] + spec_u16_be(v.keep_alive)
        + spec_property_set_bytes(v.properties) + spec_string_bytes(v.client_id) + (match v.will {
        Some(w) => spec_will_bytes(w),
        None => Seq::empty(),
    }) + (match v.username {
        Some(u) => spec_string_bytes(u),
        None => Seq::empty(),
    }) + (match v.password {
        Some(p) => spec_binary_bytes(p),
        None => Seq::empty(),
    })
}

/// A whole CONNECT packet.
pub open spec fn spec_connect_packet_bytes(v: ConnectView) -> Seq<u8> {
    spec_packet_bytes(CONNECT_PACKET, spec_connect_body(v))
}

/// Whether a CONNECT can be framed.
pub open spec fn connect_fits(v: ConnectView) -> bool {
    &&& string_fits(v.client_id)
    &&& property_set_fits(v.properties)
    &&& (match v.will {
        Some(w) => w.qos <= 2 && string_fits(w.topic) && binary_fits(w.payload)
            && property_set_fits(w.properties),
        None => true,
    })
    &&& (match v.username {
        Some(u) => string_fits(u),
        None => true,
    })
    &&& (match v.password {
        Some(p) => binary_fits(p),
        None => true,
    })
    &&& body_fits(spec_connect_body(v))
}

/// Read a will from the payload.
pub open spec fn parse_will(s: Seq<u8>, qos: u8, retain: bool) -> Option<(WillView, Seq<u8>)> {
    match parse_property_set(s) {
        Some((wps, r1)) => match parse_string(r1) {
            Some((wt, r2)) => match parse_binary(r2) {
                Some((wp, r3)) => Some(
                    (WillView { properties: wps, topic: wt, payload: wp, qos, retain }, r3),
                ),
                None => None,
            },
            None => None,
        },
        None => None,
    }
}

/// Read the payload after the client identifier, guided by the flags,
/// consuming the body exactly.
#[verifier::opaque]
pub open spec fn parse_connect_tail(
    flags: u8,
    keep_alive: u16,
    ps: Seq<PropertyView>,
    cid: Seq<char>,
    s: Seq<u8>,
) -> Option<ConnectView> {
    let clean_start = (flags / 2) % 2 == 1;
    let has_will = (flags / 4) % 2 == 1;
    let will_qos = (flags / 8) % 4;
    let will_retain = (flags / 32) % 2 == 1;
    let has_password = (flags / 64) % 2 == 1;
    let has_username = (flags / 128) % 2 == 1;
    let wres = if has_will {
        match parse_will(s, will_qos, will_retain) {
            Some((w, r)) => Some((Some(w), r)),
            None => None,
        }
    } else {
        Some((None::<WillView>, s))
    };
    match wres {
        Some((will, r1)) => {
            let ures = if has_username {
                match parse_string(r1) {
                    Some((u, r)) => Some((Some(u), r)),
                    None => None,
                }
            } else {
                Some((None::<Seq<char>>, r1))
            };
            match ures {
                Some((username, r2)) => {
                    let pres = if has_password {
                        match parse_binary(r2) {
                            Some((p, r)) => Some((Some(p), r)),
                            None => None,
                        }
                    } else {
                        Some((None::<Seq<u8>>, r2))
                    };
                    match pres {
                        Some((password, r3)) => if r3.len() == 0 {
                            Some(
                                ConnectView {
                                    clean_start,
                                    keep_alive,
                                    properties: ps,
                                    client_id: cid,
                                    will,
                                    username,
                                    password,
                                },
                            )
                        } else {
                            None
                        },
                        None => None,
                    }
                },
                None => None,
            }
        },
        None => None,
    }
}

/// Read a CONNECT body, consuming it exactly. A wrong protocol name
/// or version, a set reserved bit, or will bits without the will flag
/// all fail.
pub open spec fn parse_connect_body(s: Seq<u8>) -> Option<ConnectView> {
    if s.len() >= 7 && s.take(7) == protocol_prefix() {
        let r2 = s.skip(7);
        match parse_u8(r2) {
            Some((flags, r3)) => if connect_flags_ok(flags) {
                match parse_u16_be(r3) {
                    Some((ka, r4)) => match parse_property_set(r4) {
                        Some((ps, r5)) => match parse_string(r5) {
                            Some((cid, r6)) => parse_connect_tail(flags, ka, ps, cid, r6),
                            None => None,
                        },
                        None => None,
                    },
                    None => None,
                }
            } else {
                None
            },
            None => None,
        }
    } else {
        None
    }
}

/// The flag fields come back out of the flags byte.
proof fn lemma_connect_flags_round_trip(v: ConnectView)
    requires
        match v.will {
            Some(w) => w.qos <= 2,
            None => true,
        },
    ensures
        ({
            let b = spec_connect_flags(v);
            &&& connect_flags_ok(b)
            &&& ((b / 2) % 2 == 1) == v.clean_start
            &&& ((b / 4) % 2 == 1) == (v.will is Some)
            &&& (match v.will {
                Some(w) => (b / 8) % 4 == w.qos && ((b / 32) % 2 == 1) == w.retain,
                None => true,
            })
            &&& ((b / 64) % 2 == 1) == (v.password is Some)
            &&& ((b / 128) % 2 == 1) == (v.username is Some)
        }),
{
    reveal(spec_connect_flags);
}

/// The payload tail comes back out of its encoding, for any flags
/// byte whose fields agree with the packet.
proof fn lemma_connect_tail_round_trip(flags: u8, v: ConnectView)
    requires
        connect_fits(v),
        ((flags / 2) % 2 == 1) == v.clean_start,
        ((flags / 4) % 2 == 1) == (v.will is Some),
        match v.will {
            Some(w) => (flags / 8) % 4 == w.qos && ((flags / 32) % 2 == 1) == w.retain,
            None => true,
        },
        ((flags / 64) % 2 == 1) == (v.password is Some),
        ((flags / 128) % 2 == 1) == (v.username is Some),
    ensures
        ({
            let wseg = match v.will {
                Some(w) => spec_will_bytes(w),
                None => Seq::<u8>::empty(),
            };
            let useg = match v.username {
                Some(u) => spec_string_bytes(u),
                None => Seq::<u8>::empty(),
            };
            let pseg = match v.password {
                Some(p) => spec_binary_bytes(p),
                None => Seq::<u8>::empty(),
            };
            parse_connect_tail(
                flags,
                v.keep_alive,
                v.properties,
                v.client_id,
                wseg + useg + pseg,
            ) == Some(v)
        }),
{
    reveal(parse_connect_tail);
    let wseg = match v.will {
        Some(w) => spec_will_bytes(w),
        None => Seq::<u8>::empty(),
    };
    let useg = match v.username {
        Some(u) => spec_string_bytes(u),
        None => Seq::<u8>::empty(),
    };
    let pseg = match v.password {
        Some(p) => spec_binary_bytes(p),
        None => Seq::<u8>::empty(),
    };
    let tail = wseg + useg + pseg;
    let after_will = useg + pseg;
    match v.will {
        Some(w) => {
            assert(tail =~= spec_property_set_bytes(w.properties) + (spec_string_bytes(w.topic) + (
            spec_binary_bytes(w.payload) + after_will)));
            lemma_property_set_round_trip(
                w.properties,
                spec_string_bytes(w.topic) + (spec_binary_bytes(w.payload) + after_will),
            );
            lemma_string_round_trip(w.topic, spec_binary_bytes(w.payload) + after_will);
            lemma_binary_round_trip(w.payload, after_will);
            assert(parse_will(tail, w.qos, w.retain) == Some((w, after_will))) by {
                assert(WillView {
                    properties: w.properties,
                    topic: w.topic,
                    payload: w.payload,
                    qos: w.qos,
                    retain: w.retain,
                } =~= w);
            }
        },
        None => {
            assert(tail =~= after_will);
        },
    }
    match v.username {
        Some(u) => {
            assert(after_will =~= spec_string_bytes(u) + pseg);
            lemma_string_round_trip(u, pseg);
        },
        None => {
            assert(after_will =~= pseg);
        },
    }
    match v.password {
        Some(p) => {
            assert(pseg =~= spec_binary_bytes(p) + Seq::<u8>::empty());
            lemma_binary_round_trip(p, Seq::<u8>::empty());
        },
        None => {},
    }
    assert(parse_connect_tail(flags, v.keep_alive, v.properties, v.client_id, tail)
        matches Some(got) && got =~= v);
}

/// Decoding an encoded CONNECT body yields the packet back.
#[verifier::rlimit(100)]
pub proof fn lemma_connect_round_trip(v: ConnectView)
    requires
        connect_fits(v),
    ensures
        parse_connect_body(spec_connect_body(v)) == Some(v),
{
    lemma_connect_flags_round_trip(v);
    let flags = spec_connect_flags(v);
    let s = spec_connect_body(v);
    let pset = spec_property_set_bytes(v.properties);
    let cid = spec_string_bytes(v.client_id);
    let wseg = match v.will {
        Some(w) => spec_will_bytes(w),
        None => Seq::<u8>::empty(),
    };
    let useg = match v.username {
        Some(u) => spec_string_bytes(u),
        None => Seq::<u8>::empty(),
    };
    let pseg = match v.password {
        Some(p) => spec_binary_bytes(p),
        None => Seq::<u8>::empty(),
    };
    let tail = wseg + useg + pseg;
    let rest1 = spec_u16_be(v.keep_alive) + (pset + (cid + tail));
    assert(s.len() >= 7 && s.take(7) =~= protocol_prefix());
    assert(s.skip(7) =~= seq![flags] + rest1);
    assert(parse_u8(seq![flags] + rest1) == Some((flags, rest1))) by {
        assert((seq![flags] + rest1).skip(1) =~= rest1);
    }
    assert(parse_u16_be(rest1) == Some((v.keep_alive, pset + (cid + tail)))) by {
        lemma_u16_round_trip(v.keep_alive, pset + (cid + tail));
    }
    assert(parse_property_set(pset + (cid + tail)) == Some((v.properties, cid + tail))) by {
        lemma_property_set_round_trip(v.properties, cid + tail);
    }
    assert(parse_string(cid + tail) == Some((v.client_id, tail))) by {
        lemma_string_round_trip(v.client_id, tail);
    }
    assert(parse_connect_body(s) == parse_connect_tail(
        flags,
        v.keep_alive,
        v.properties,
        v.client_id,
        tail,
    ));
    lemma_connect_tail_round_trip(flags, v);
}

impl Connect {
    /// Assemble a plain CONNECT: no will and no credentials.
    pub fn new(
        clean_start: bool,
        keep_alive: u16,
        properties: VariableHeaderProperties,
        client_id: String,
    ) -> (r: Connect)
        ensures
            r@ == (ConnectView {
                clean_start,
                keep_alive,
                properties: properties@,
                client_id: client_id@,
                will: None,
                username: None,
                password: None,
            }),
    {
        Connect {
            clean_start,
            keep_alive,
            properties,
            client_id,
            will: None,
            username: None,
            password: None,
        }
    }

    /// Serialise the packet, fixed header included; `BadArgument`
    /// exactly when a field outgrows its wire form.
    pub fn write_to(&self, out: &mut Vec<u8>) -> (r: Result<(), MqttError>)
        ensures
            if connect_fits(self@) {
                r == Ok::<(), MqttError>(()) && final(out)@ == old(out)@
                    + spec_connect_packet_bytes(self@)
            } else {
                r == Err::<(), MqttError>(MqttError::BadArgument) && final(out)@ == old(out)@
            },
    {
        let pset = match self.properties.as_bytes() {
            Ok(b) => b,
            Err(_) => {
                return Err(MqttError::BadArgument);
            },
        };
        let mut body: Vec<u8> = Vec::new();
        write_u8(&mut body, 0);
        write_u8(&mut body, 4);
        write_u8(&mut body, 0x4D);
        write_u8(&mut body, 0x51);
        write_u8(&mut body, 0x54);
        write_u8(&mut body, 0x54);
        write_u8(&mut body, 5);
        assert(body@ =~= protocol_prefix());
        let mut flags: u8 = 0;
        if self.username.is_some() {
            flags = flags + 128;
        }
        if self.password.is_some() {
            flags = flags + 64;
        }
        match &self.will {
            Some(w) => {
                if w.qos > 2 {
                    return Err(MqttError::BadArgument);
                }
                flags = flags + (if w.retain {
                    32
                } else {
                    0
                }) + w.qos * 8 + 4;
            },
            None => {},
        }
        if self.clean_start {
            flags = flags + 2;
        }
        assert(flags == spec_connect_flags(self@)) by {
            reveal(spec_connect_flags);
        }
        write_u8(&mut body, flags);
        write_u16_be(&mut body, self.keep_alive);
        write_bytes(&mut body, pset.as_slice());
        match write_string(&mut body, self.client_id.as_str()) {
            Ok(()) => {},
            Err(_) => {
                return Err(MqttError::BadArgument);
            },
        }
        match &self.will {
            Some(w) => {
                let wps = match w.properties.as_bytes() {
                    Ok(b) => b,
                    Err(_) => {
                        return Err(MqttError::BadArgument);
                    },
                };
                write_bytes(&mut body, wps.as_slice());
                match write_string(&mut body, w.topic.as_str()) {
                    Ok(()) => {},
                    Err(_) => {
                        return Err(MqttError::BadArgument);
                    },
                }
                match write_binary(&mut body, &w.payload) {
                    Ok(()) => {},
                    Err(_) => {
                        return Err(MqttError::BadArgument);
                    },
                }
            },
            None => {},
        }
        match &self.username {
            Some(u) => {
                match write_string(&mut body, u.as_str()) {
                    Ok(()) => {},
                    Err(_) => {
                        return Err(MqttError::BadArgument);
                    },
                }
            },
            None => {},
        }
        match &self.password {
            Some(p) => {
                match write_binary(&mut body, p) {
                    Ok(()) => {},
                    Err(_) => {
                        return Err(MqttError::BadArgument);
                    },
                }
            },
            None => {},
        }
        assert(body@ =~= spec_connect_body(self@));
        write_packet(out, CONNECT_PACKET, &body)
    }

    /// Decode a CONNECT body of `remaining_length` bytes, the fixed
    /// header already read.
    pub fn read_from(reader: &mut ByteReader, remaining_length: u32) -> (r: Result<
        Connect,
        MqttError,
    >)
        requires
            old(reader).wf(),
        ensures
            final(reader).wf(),
            final(reader).data == old(reader).data,
            old(reader).remaining().len() < remaining_length ==> r == Err::<Connect, MqttError>(
                MqttError::Malformed,
            ) && *final(reader) == *old(reader),
            old(reader).remaining().len() >= remaining_length ==> {
                &&& final(reader).remaining() == old(reader).remaining().skip(
                    remaining_length as int,
                )
                &&& match parse_connect_body(
                    old(reader).remaining().take(remaining_length as int),
                ) {
                    Some(v) => r matches Ok(p) && p@ == v,
                    None => r == Err::<Connect, MqttError>(MqttError::Malformed),
                }
            },
    {
        proof {
            reveal(parse_connect_tail);
        }
        let body = match reader.take(remaining_length as usize) {
            Ok(b) => b,
            Err(_) => {
                return Err(MqttError::Malformed);
            },
        };
        let mut br = ByteReader::new(body);
        let prefix = match br.take(7) {
            Ok(p) => p,
            Err(_) => {
                return Err(MqttError::Malformed);
            },
        };
        if !(prefix[0] == 0 && prefix[1] == 4 && prefix[2] == 0x4D && prefix[3] == 0x51
            && prefix[4] == 0x54 && prefix[5] == 0x54 && prefix[6] == 5) {
            proof {
                let taken = old(reader).remaining().take(remaining_length as int);
                assert(prefix@ =~= taken.take(7));
                assert(taken.take(7) != protocol_prefix());
            }
            return Err(MqttError::Malformed);
        }
        proof {
            let taken = old(reader).remaining().take(remaining_length as int);
            assert(prefix@ =~= taken.take(7));
            assert(prefix@ =~= protocol_prefix());
            assert(br.remaining() =~= taken.skip(7));
        }
        let flags = match br.read_u8() {
            Ok(f) => f,
            Err(_) => {
                return Err(MqttError::Malformed);
            },
        };
        let will_qos = (flags / 8) % 4;
        if !(flags % 2 == 0 && will_qos <= 2 && ((flags / 4) % 2 == 1 || (will_qos == 0 && (flags
            / 32) % 2 == 0))) {
            assert(!connect_flags_ok(flags));
            return Err(MqttError::Malformed);
        }
        assert(connect_flags_ok(flags));
        let keep_alive = match br.read_u16() {
            Ok(k) => k,
            Err(_) => {
                return Err(MqttError::Malformed);
            },
        };
        let properties = match VariableHeaderProperties::read_from(&mut br) {
            Ok(p) => p,
            Err(_) => {
                return Err(MqttError::Malformed);
            },
        };
        let client_id = match br.read_string() {
            Ok(c) => c,
            Err(_) => {
                return Err(MqttError::Malformed);
            },
        };
        let will: Option<Will> = if (flags / 4) % 2 == 1 {
            let wprops = match VariableHeaderProperties::read_from(&mut br) {
                Ok(p) => p,
                Err(_) => {
                    return Err(MqttError::Malformed);
                },
            };
            let wtopic = match br.read_string() {
                Ok(t) => t,
                Err(_) => {
                    return Err(MqttError::Malformed);
                },
            };
            let wpayload = match br.read_binary() {
                Ok(p) => p,
                Err(_) => {
                    return Err(MqttError::Malformed);
                },
            };
            Some(
                Will {
                    properties: wprops,
                    topic: wtopic,
                    payload: wpayload,
                    qos: will_qos,
                    retain: (flags / 32) % 2 == 1,
                },
            )
        } else {
            None
        };
        let username: Option<String> = if (flags / 128) % 2 == 1 {
            match br.read_string() {
                Ok(u) => Some(u),
                Err(_) => {
                    return Err(MqttError::Malformed);
                },
            }
        } else {
            None
        };
        let password: Option<Vec<u8>> = if (flags / 64) % 2 == 1 {
            match br.read_binary() {
                Ok(p) => Some(p),
                Err(_) => {
                    return Err(MqttError::Malformed);
                },
            }
        } else {
            None
        };
        if !br.at_end() {
            return Err(MqttError::Malformed);
        }
        let r = Connect {
            clean_start: (flags / 2) % 2 == 1,
            keep_alive,
            properties,
            client_id,
            will,
            username,
            password,
        };
        assert(parse_connect_body(old(reader).remaining().take(remaining_length as int))
            matches Some(v) && r@ =~= v);
        Ok(r)
    }
}

} // verus!
