//! The client session state machine: connection states, packet
//! identifier allocation, the table of outstanding acknowledgements,
//! and the pure decisions behind connect, subscribe, publish,
//! unsubscribe, ping and disconnect. The runtime around it performs
//! the socket work; every transition here is verified.

use vstd::prelude::*;
use vstd::assert_by_contradiction;
use vstd::set_lib::{lemma_int_range, lemma_len_subset, set_int_range};
use crate::acks::{Puback, Unsuback};
use crate::connack::Connack;
use crate::connect::{Connect, ConnectView};
use crate::disconnect::Disconnect;
use crate::errors::MqttError;
use crate::ping::PingReq;
use crate::properties::{PropertyView, VariableHeaderProperties, VariableHeaderProperty};
use crate::publish::Publish;
use crate::subscribe::{SubscribeProperties, SubscriptionType, _Subscribe};
use crate::unsubscribe::Unsubscribe;

verus! {

/// A message delivered to the application by the reader.
#[derive(Debug)]
pub struct MqttClientMessage {
    pub topic: String,
    pub data: Vec<u8>,
}

/// The mathematical model of a delivered message.
#[verifier::ext_equal]
pub struct MqttClientMessageView {
    pub topic: Seq<char>,
    pub data: Seq<u8>,
}

impl View for MqttClientMessage {
    type V = MqttClientMessageView;

    open spec fn view(&self) -> MqttClientMessageView {
        MqttClientMessageView { topic: self.topic@, data: self.data@ }
    }
}

/// Where a session stands.
#[derive(Debug, PartialEq, Eq, Structural, Clone, Copy)]
pub enum SessionState {
    Disconnected,
    Connecting,
    Connected,
}

/// What an outstanding packet identifier waits for.
#[derive(Debug, PartialEq, Eq, Structural, Clone, Copy)]
pub enum AckKind {
    /// A SUBACK carrying one reason code per requested filter.
    Subscribe { filter_count: usize },
    /// A PUBACK for a QoS-1 publish.
    Publish,
    /// An UNSUBACK.
    Unsubscribe,
}

/// One outstanding request: its packet identifier and what
/// acknowledgement it waits for.
#[derive(Debug, PartialEq, Eq, Structural, Clone, Copy)]
pub struct PendingAck {
    pub packet_id: u16,
    pub kind: AckKind,
}

/// Some outstanding request carries this identifier.
pub open spec fn spec_has_id(pending: Seq<PendingAck>, id: u16) -> bool {
    exists|i: int| 0 <= i < pending.len() && (#[trigger] pending[i]).packet_id == id
}

/// The position of the outstanding request with this identifier.
pub open spec fn spec_index_of_id(pending: Seq<PendingAck>, id: u16) -> int {
    choose|i: int| 0 <= i < pending.len() && (#[trigger] pending[i]).packet_id == id
}

/// A topic name or filter mentions a wildcard character.
pub open spec fn topic_has_wildcard(s: Seq<char>) -> bool {
    s.contains('+') || s.contains('#')
}

/// Scan a topic for the wildcard characters.
pub fn topic_name_has_wildcard(topic: &str) -> (r: bool)
    ensures
        r == topic_has_wildcard(topic@),
{
    let len = topic.unicode_len();
    let mut i: usize = 0;
    while i < len
        invariant
            i <= len,
            len == topic@.len(),
            forall|j: int| 0 <= j < i ==> topic@[j] != '+' && topic@[j] != '#',
        decreases len - i,
    {
        let c = topic.get_char(i);
        if c == '+' || c == '#' {
            assert(topic@.contains(c));
            return true;
        }
        i = i + 1;
    }
    assert(!topic@.contains('+') && !topic@.contains('#'));
    false
}

/// Join a configured prefix onto a topic filter with the level
/// separator.
pub fn apply_topic_prefix(prefix: &str, filter: &str) -> (r: String)
    ensures
        r@ == prefix@ + "/"@ + filter@,
{
    let mut s = prefix.to_owned();
    s.append("/");
    s.append(filter);
    assert(s@ =~= prefix@ + "/"@ + filter@);
    s
}

/// A client session: its state, the packet-identifier counter, and
/// the outstanding requests keyed by identifier.
#[derive(Debug)]
pub struct ClientSession {
    pub state: SessionState,
    pub next_packet_id: u16,
    pub pending: Vec<PendingAck>,
    pub ping_pending: bool,
    pub client_id: String,
    pub keep_alive: u16,
    pub last_send: u64,
}

impl ClientSession {
    /// The session invariant: the counter names a lawful next
    /// identifier, outstanding identifiers are non-zero and distinct,
    /// and nothing is outstanding unless the session is connected.
    pub open spec fn wf(&self) -> bool {
        &&& self.next_packet_id >= 1
        &&& forall|i: int|
            0 <= i < self.pending@.len() ==> (#[trigger] self.pending@[i]).packet_id != 0
        &&& forall|i: int, j: int|
            0 <= i < j < self.pending@.len() ==> (#[trigger] self.pending@[i]).packet_id != (
            #[trigger] self.pending@[j]).packet_id
        &&& (self.state != SessionState::Connected ==> self.pending@.len() == 0
            && !self.ping_pending)
    }

    /// A fresh session: disconnected, counter at 1, nothing
    /// outstanding.
    pub fn new(client_id: String, keep_alive: u16) -> (r: ClientSession)
        ensures
            r.wf(),
            r.state == SessionState::Disconnected,
            r.next_packet_id == 1,
            r.pending@ == Seq::<PendingAck>::empty(),
            !r.ping_pending,
            r.client_id@ == client_id@,
            r.keep_alive == keep_alive,
            r.last_send == 0,
    {
        let r = ClientSession {
            state: SessionState::Disconnected,
            next_packet_id: 1,
            pending: Vec::new(),
            ping_pending: false,
            client_id,
            keep_alive,
            last_send: 0,
        };
        assert(r.pending@ =~= Seq::<PendingAck>::empty());
        r
    }

    /// Whether an identifier is outstanding.
    fn contains_id(&self, id: u16) -> (r: bool)
        ensures
            r == spec_has_id(self.pending@, id),
    {
        let mut i: usize = 0;
        while i < self.pending.len()
            invariant
                i <= self.pending@.len(),
                forall|j: int| 0 <= j < i ==> (#[trigger] self.pending@[j]).packet_id != id,
            decreases self.pending@.len() - i,
        {
            if self.pending[i].packet_id == id {
                assert(spec_has_id(self.pending@, id));
                return true;
            }
            i = i + 1;
        }
        assert(!spec_has_id(self.pending@, id));
        false
    }

    /// Allocate a packet identifier: starting from the counter,
    /// increment (wrapping past 0xFFFF to 1) until an identifier not
    /// outstanding is found; fewer than 65 535 outstanding requests
    /// guarantee one exists. The counter moves past the allocation.
    fn allocate_packet_id(&mut self) -> (r: u16)
        requires
            old(self).wf(),
            old(self).pending@.len() < 65535,
        ensures
            final(self).wf(),
            r != 0,
            !spec_has_id(final(self).pending@, r),
            final(self).pending == old(self).pending,
            final(self).state == old(self).state,
            final(self).ping_pending == old(self).ping_pending,
            final(self).client_id == old(self).client_id,
            final(self).keep_alive == old(self).keep_alive,
            final(self).last_send == old(self).last_send,
    {
        let start = self.next_packet_id;
        let mut c: u32 = start as u32;
        while c <= 65535
            invariant
                self.wf(),
                *self == *old(self),
                start == self.next_packet_id,
                start as u32 <= c <= 65536,
                forall|x: int|
                    start <= x < c ==> #[trigger] spec_has_id(self.pending@, x as u16),
            decreases 65536 - c,
        {
            if !self.contains_id(c as u16) {
                self.next_packet_id = if c >= 65535 {
                    1
                } else {
                    (c + 1) as u16
                };
                return c as u16;
            }
            c = c + 1;
        }
        let mut c2: u32 = 1;
        while c2 < start as u32
            invariant
                self.wf(),
                *self == *old(self),
                start == self.next_packet_id,
                1 <= c2 <= start,
                forall|x: int|
                    start <= x <= 65535 ==> #[trigger] spec_has_id(self.pending@, x as u16),
                forall|x: int| 1 <= x < c2 ==> #[trigger] spec_has_id(self.pending@, x as u16),
            decreases start as int - c2,
        {
            if !self.contains_id(c2 as u16) {
                self.next_packet_id = (c2 + 1) as u16;
                return c2 as u16;
            }
            c2 = c2 + 1;
        }
        proof {
            lemma_free_id_exists(self.pending@);
            let x = choose|x: u16| x != 0 && !spec_has_id(self.pending@, x);
            assert(1 <= x as int <= 65535);
            assert(spec_has_id(self.pending@, (x as int) as u16));
        }
        1
    }
}

/// Fewer than 65 535 outstanding requests cannot cover every non-zero
/// identifier: some identifier is still free.
proof fn lemma_free_id_exists(pending: Seq<PendingAck>)
    requires
        pending.len() < 65535,
    ensures
        exists|x: u16| x != 0 && !spec_has_id(pending, x),
{
    assert_by_contradiction!(exists|x: u16| x != 0 && !spec_has_id(pending, x), {
        let ids = pending.map_values(|p: PendingAck| p.packet_id as int);
        assert(set_int_range(1, 65536).subset_of(ids.to_set())) by {
            assert forall|x: int| set_int_range(1, 65536).contains(x) implies ids
                .to_set()
                .contains(x) by {
                let xu = (x as u16);
                assert(xu != 0);
                assert(spec_has_id(pending, xu));
                let i = choose|i: int|
                    0 <= i < pending.len() && (#[trigger] pending[i]).packet_id == xu;
                assert(ids[i] == x);
                assert(ids.contains(x));
            }
        }
        lemma_int_range(1, 65536);
        broadcast use vstd::seq_lib::seq_to_set_is_finite;

        lemma_len_subset(set_int_range(1, 65536), ids.to_set());
        ids.lemma_cardinality_of_set();
    });
}

/// The first server-keep-alive property in a list, if any.
pub open spec fn spec_find_server_keep_alive(ps: Seq<PropertyView>) -> Option<u16>
    decreases ps.len(),
{
    if ps.len() == 0 {
        None
    } else {
        match ps[0] {
            PropertyView::ServerKeepAlive(k) => Some(k),
            _ => spec_find_server_keep_alive(ps.drop_first()),
        }
    }
}

/// The first assigned-client-identifier property in a list, if any.
pub open spec fn spec_find_assigned_client_id(ps: Seq<PropertyView>) -> Option<Seq<char>>
    decreases ps.len(),
{
    if ps.len() == 0 {
        None
    } else {
        match ps[0] {
            PropertyView::AssignedClientIdentifier(c) => Some(c),
            _ => spec_find_assigned_client_id(ps.drop_first()),
        }
    }
}

/// Scan a property set for a server-keep-alive override.
fn find_server_keep_alive(props: &VariableHeaderProperties) -> (r: Option<u16>)
    ensures
        r == spec_find_server_keep_alive(props@),
{
    assert(props@.skip(0) =~= props@);
    let mut i: usize = 0;
    while i < props.properties.len()
        invariant
            i <= props.properties@.len(),
            props@.len() == props.properties@.len(),
            spec_find_server_keep_alive(props@) == spec_find_server_keep_alive(
                props@.skip(i as int),
            ),
        decreases props.properties@.len() - i,
    {
        let ghost rest = props@.skip(i as int);
        assert(rest[0] == props@[i as int] && rest.drop_first() =~= props@.skip(i as int + 1));
        match &props.properties[i] {
            VariableHeaderProperty::ServerKeepAlive(k) => {
                assert(props@[i as int] == PropertyView::ServerKeepAlive(*k));
                return Some(*k);
            },
            _ => {},
        }
        i = i + 1;
    }
    assert(props@.skip(props@.len() as int) =~= Seq::<PropertyView>::empty());
    None
}

/// Scan a property set for an assigned-client-identifier override.
fn find_assigned_client_id(props: &VariableHeaderProperties) -> (r: Option<String>)
    ensures
        match r {
            Some(c) => spec_find_assigned_client_id(props@) == Some(c@),
            None => spec_find_assigned_client_id(props@) == None::<Seq<char>>,
        },
{
    assert(props@.skip(0) =~= props@);
    let mut i: usize = 0;
    while i < props.properties.len()
        invariant
            i <= props.properties@.len(),
            props@.len() == props.properties@.len(),
            spec_find_assigned_client_id(props@) == spec_find_assigned_client_id(
                props@.skip(i as int),
            ),
        decreases props.properties@.len() - i,
    {
        let ghost rest = props@.skip(i as int);
        assert(rest[0] == props@[i as int] && rest.drop_first() =~= props@.skip(i as int + 1));
        match &props.properties[i] {
            VariableHeaderProperty::AssignedClientIdentifier(c) => {
                assert(props@[i as int] == PropertyView::AssignedClientIdentifier(c@));
                return Some(c.clone());
            },
            _ => {},
        }
        i = i + 1;
    }
    assert(props@.skip(props@.len() as int) =~= Seq::<PropertyView>::empty());
    None
}

impl ClientSession {
    /// Begin the handshake: from `Disconnected`, move to `Connecting`
    /// and hand back the CONNECT to send; from any other state the
    /// request is out of place.
    pub fn start_connect(&mut self, clean_start: bool, properties: VariableHeaderProperties) -> (r:
        Result<Connect, MqttError>)
        requires
            old(self).wf(),
        ensures
            final(self).wf(),
            old(self).state == SessionState::Disconnected ==> (r matches Ok(c) && c@
                == (ConnectView {
                clean_start,
                keep_alive: old(self).keep_alive,
                properties: properties@,
                client_id: old(self).client_id@,
                will: None,
                username: None,
                password: None,
            })) && final(self).state == SessionState::Connecting && final(self).pending == old(
                self,
            ).pending && final(self).next_packet_id == old(self).next_packet_id && final(self).ping_pending == old(self).ping_pending && final(self).client_id == old(
                self,
            ).client_id && final(self).keep_alive == old(self).keep_alive && final(self).last_send
                == old(self).last_send,
            old(self).state != SessionState::Disconnected ==> r == Err::<Connect, MqttError>(
                MqttError::Protocol,
            ) && *final(self) == *old(self),
    {
        if self.state != SessionState::Disconnected {
            return Err(MqttError::Protocol);
        }
        self.state = SessionState::Connecting;
        Ok(Connect::new(clean_start, self.keep_alive, properties, self.client_id.clone()))
    }

    /// Judge the broker's CONNACK. From `Connecting` with a success
    /// reason the session is connected, taking the broker's keep-alive
    /// and client-identifier overrides; any failure reason returns it
    /// to `Disconnected`. A CONNACK in any other state is out of
    /// place.
    pub fn handle_connack(&mut self, connack: &Connack) -> (r: Result<(), MqttError>)
        requires
            old(self).wf(),
        ensures
            final(self).wf(),
            old(self).state == SessionState::Connecting && connack@.reason_code == 0 ==> r == Ok::<
                (),
                MqttError,
            >(()) && final(self).state == SessionState::Connected && final(self).keep_alive == (
            match spec_find_server_keep_alive(connack@.properties) {
                Some(k) => k,
                None => old(self).keep_alive,
            }) && final(self).client_id@ == (match spec_find_assigned_client_id(
                connack@.properties,
            ) {
                Some(c) => c,
                None => old(self).client_id@,
            }) && final(self).pending == old(self).pending && final(self).next_packet_id == old(
                self,
            ).next_packet_id && final(self).ping_pending == old(self).ping_pending && final(self).last_send == old(self).last_send,
            old(self).state == SessionState::Connecting && connack@.reason_code != 0 ==> r == Err::<
                (),
                MqttError,
            >(MqttError::Protocol) && final(self).state == SessionState::Disconnected && final(self).pending == old(self).pending && final(self).ping_pending == old(self).ping_pending,
            old(self).state != SessionState::Connecting ==> r == Err::<(), MqttError>(
                MqttError::Protocol,
            ) && *final(self) == *old(self),
    {
        if self.state != SessionState::Connecting {
            return Err(MqttError::Protocol);
        }
        if connack.reason_code != 0 {
            self.state = SessionState::Disconnected;
            return Err(MqttError::Protocol);
        }
        match find_server_keep_alive(&connack.properties) {
            Some(k) => {
                self.keep_alive = k;
            },
            None => {},
        }
        match find_assigned_client_id(&connack.properties) {
            Some(c) => {
                self.client_id = c;
            },
            None => {},
        }
        self.state = SessionState::Connected;
        Ok(())
    }

    /// Begin a subscribe: allocate a packet identifier, record the
    /// waiter, and hand back the SUBSCRIBE to send. An empty filter
    /// list is refused; so is a session that is not connected.
    pub fn start_subscribe(&mut self, topic_filters: Vec<SubscriptionType>) -> (r: Result<
        _Subscribe,
        MqttError,
    >)
        requires
            old(self).wf(),
            old(self).pending@.len() < 65535,
        ensures
            final(self).wf(),
            old(self).state != SessionState::Connected ==> r == Err::<_Subscribe, MqttError>(
                MqttError::SessionClosed,
            ) && *final(self) == *old(self),
            old(self).state == SessionState::Connected && topic_filters@.len() == 0 ==> r == Err::<
                _Subscribe,
                MqttError,
            >(MqttError::BadArgument) && *final(self) == *old(self),
            old(self).state == SessionState::Connected && topic_filters@.len() > 0 ==> match r {
                Ok(sub) => {
                    &&& sub@.packet_identifier != 0
                    &&& !spec_has_id(old(self).pending@, sub@.packet_identifier)
                    &&& sub@.subscription_identifier == None::<u32>
                    &&& sub@.user_property == None::<(Seq<char>, Seq<char>)>
                    &&& sub@.topic_filters == topic_filters@.map_values(
                        |f: SubscriptionType| f@,
                    )
                    &&& final(self).pending@ == old(self).pending@.push(
                        PendingAck {
                            packet_id: sub@.packet_identifier,
                            kind: AckKind::Subscribe { filter_count: topic_filters@.len() as usize },
                        },
                    )
                    &&& final(self).state == old(self).state
                    &&& final(self).ping_pending == old(self).ping_pending
                    &&& final(self).client_id == old(self).client_id
                    &&& final(self).keep_alive == old(self).keep_alive
                    &&& final(self).last_send == old(self).last_send
                },
                Err(_) => false,
            },
    {
        if self.state != SessionState::Connected {
            return Err(MqttError::SessionClosed);
        }
        if topic_filters.len() == 0 {
            return Err(MqttError::BadArgument);
        }
        let id = self.allocate_packet_id();
        let count = topic_filters.len();
        let entry = PendingAck { packet_id: id, kind: AckKind::Subscribe { filter_count: count } };
        proof {
            lemma_push_fresh_keeps_wf(self.pending@, entry);
        }
        self.pending.push(entry);
        let properties = SubscribeProperties {
            packet_identifier: id,
            subscription_identifier: None,
            user_property: None,
            topic_filters,
        };
        Ok(_Subscribe::_new(properties))
    }

    /// Begin a publish. QoS 0 sends at once and waits for nothing;
    /// QoS 1 allocates a packet identifier and records the waiter. A
    /// QoS above 1, a wildcard in the topic name, or a session that is
    /// not connected is refused.
    pub fn start_publish(
        &mut self,
        topic_name: String,
        application_message: Vec<u8>,
        qos: u8,
        retain: bool,
    ) -> (r: Result<Publish, MqttError>)
        requires
            old(self).wf(),
            old(self).pending@.len() < 65535,
        ensures
            final(self).wf(),
            old(self).state != SessionState::Connected ==> r == Err::<Publish, MqttError>(
                MqttError::SessionClosed,
            ) && *final(self) == *old(self),
            old(self).state == SessionState::Connected && qos > 1 ==> r == Err::<Publish, MqttError>(
                MqttError::BadArgument,
            ) && *final(self) == *old(self),
            old(self).state == SessionState::Connected && qos <= 1 && topic_has_wildcard(
                topic_name@,
            ) ==> r == Err::<Publish, MqttError>(MqttError::BadArgument) && *final(self) == *old(
                self,
            ),
            old(self).state == SessionState::Connected && qos <= 1 && !topic_has_wildcard(
                topic_name@,
            ) ==> match r {
                Ok(p) => {
                    &&& p@.dup == false
                    &&& p@.qos == qos
                    &&& p@.retain == retain
                    &&& p@.topic_name == topic_name@
                    &&& p@.properties == seq![PropertyView::PayloadFormatIndicator(1)]
                    &&& p@.application_message == application_message@
                    &&& (qos == 0 ==> p@.packet_identifier == 0 && *final(self) == *old(self))
                    &&& (qos == 1 ==> p@.packet_identifier != 0 && !spec_has_id(
                        old(self).pending@,
                        p@.packet_identifier,
                    ) && final(self).pending@ == old(self).pending@.push(
                        PendingAck { packet_id: p@.packet_identifier, kind: AckKind::Publish },
                    ) && final(self).state == old(self).state && final(self).ping_pending == old(
                        self,
                    ).ping_pending && final(self).client_id == old(self).client_id && final(self).keep_alive == old(self).keep_alive && final(self).last_send == old(
                        self,
                    ).last_send)
                },
                Err(_) => false,
            },
    {
        if self.state != SessionState::Connected {
            return Err(MqttError::SessionClosed);
        }
        if qos > 1 {
            return Err(MqttError::BadArgument);
        }
        if topic_name_has_wildcard(topic_name.as_str()) {
            return Err(MqttError::BadArgument);
        }
        let mut properties = VariableHeaderProperties::new();
        properties.add_property_payload_format_indicator(1);
        assert(properties@ =~= seq![PropertyView::PayloadFormatIndicator(1)]);
        if qos == 0 {
            Ok(Publish::new(false, 0, retain, topic_name, 0, properties, application_message))
        } else {
            let id = self.allocate_packet_id();
            let entry = PendingAck { packet_id: id, kind: AckKind::Publish };
            proof {
                lemma_push_fresh_keeps_wf(self.pending@, entry);
            }
            self.pending.push(entry);
            Ok(Publish::new(false, qos, retain, topic_name, id, properties, application_message))
        }
    }

    /// Begin an unsubscribe, symmetric to subscribe.
    pub fn start_unsubscribe(&mut self, topic_filters: Vec<String>) -> (r: Result<
        Unsubscribe,
        MqttError,
    >)
        requires
            old(self).wf(),
            old(self).pending@.len() < 65535,
        ensures
            final(self).wf(),
            old(self).state != SessionState::Connected ==> r == Err::<Unsubscribe, MqttError>(
                MqttError::SessionClosed,
            ) && *final(self) == *old(self),
            old(self).state == SessionState::Connected && topic_filters@.len() == 0 ==> r == Err::<
                Unsubscribe,
                MqttError,
            >(MqttError::BadArgument) && *final(self) == *old(self),
            old(self).state == SessionState::Connected && topic_filters@.len() > 0 ==> match r {
                Ok(unsub) => {
                    &&& unsub@.packet_identifier != 0
                    &&& !spec_has_id(old(self).pending@, unsub@.packet_identifier)
                    &&& unsub@.user_property == None::<(Seq<char>, Seq<char>)>
                    &&& unsub@.topic_filters == topic_filters@.map_values(|f: String| f@)
                    &&& final(self).pending@ == old(self).pending@.push(
                        PendingAck {
                            packet_id: unsub@.packet_identifier,
                            kind: AckKind::Unsubscribe,
                        },
                    )
                    &&& final(self).state == old(self).state
                    &&& final(self).ping_pending == old(self).ping_pending
                    &&& final(self).client_id == old(self).client_id
                    &&& final(self).keep_alive == old(self).keep_alive
                    &&& final(self).last_send == old(self).last_send
                },
                Err(_) => false,
            },
    {
        if self.state != SessionState::Connected {
            return Err(MqttError::SessionClosed);
        }
        if topic_filters.len() == 0 {
            return Err(MqttError::BadArgument);
        }
        let id = self.allocate_packet_id();
        let entry = PendingAck { packet_id: id, kind: AckKind::Unsubscribe };
        proof {
            lemma_push_fresh_keeps_wf(self.pending@, entry);
        }
        self.pending.push(entry);
        Ok(Unsubscribe { packet_identifier: id, user_property: None, topic_filters })
    }

    /// Remove the waiter with this identifier, if one is outstanding.
    fn remove_pending(&mut self, id: u16) -> (r: Option<PendingAck>)
        requires
            old(self).wf(),
        ensures
            final(self).wf(),
            final(self).state == old(self).state,
            final(self).next_packet_id == old(self).next_packet_id,
            final(self).ping_pending == old(self).ping_pending,
            final(self).client_id == old(self).client_id,
            final(self).keep_alive == old(self).keep_alive,
            final(self).last_send == old(self).last_send,
            spec_has_id(old(self).pending@, id) ==> {
                let i = spec_index_of_id(old(self).pending@, id);
                (r matches Some(p) && p == old(self).pending@[i] && p.packet_id == id) && final(self).pending@ == old(self).pending@.remove(i)
            },
            !spec_has_id(old(self).pending@, id) ==> r == None::<PendingAck> && *final(self)
                == *old(self),
    {
        let mut i: usize = 0;
        while i < self.pending.len()
            invariant
                self.wf(),
                *self == *old(self),
                i <= self.pending@.len(),
                forall|j: int| 0 <= j < i ==> (#[trigger] self.pending@[j]).packet_id != id,
            decreases self.pending@.len() - i,
        {
            if self.pending[i].packet_id == id {
                let entry = self.pending.remove(i);
                proof {
                    let oldp = old(self).pending@;
                    assert(spec_has_id(oldp, id));
                    let k = spec_index_of_id(oldp, id);
                    assert(oldp[k].packet_id == id);
                    assert(k == i as int);
                    lemma_remove_keeps_wf(oldp, i as int);
                }
                return Some(entry);
            }
            i = i + 1;
        }
        assert(!spec_has_id(self.pending@, id));
        None
    }

    /// Judge a SUBACK: it must match an outstanding subscribe and
    /// carry one reason code per requested filter; the waiter is
    /// cleared either way once matched. An unmatched or mismatched
    /// acknowledgement is out of place.
    pub fn handle_suback(&mut self, suback: &crate::suback::Suback) -> (r: Result<
        Vec<u8>,
        MqttError,
    >)
        requires
            old(self).wf(),
        ensures
            final(self).wf(),
            old(self).state != SessionState::Connected ==> r == Err::<Vec<u8>, MqttError>(
                MqttError::Protocol,
            ) && *final(self) == *old(self),
            old(self).state == SessionState::Connected && !spec_has_id(
                old(self).pending@,
                suback@.packet_identifier,
            ) ==> r == Err::<Vec<u8>, MqttError>(MqttError::Protocol) && *final(self) == *old(self),
            old(self).state == SessionState::Connected && spec_has_id(
                old(self).pending@,
                suback@.packet_identifier,
            ) ==> {
                let i = spec_index_of_id(old(self).pending@, suback@.packet_identifier);
                &&& final(self).pending@ == old(self).pending@.remove(i)
                &&& final(self).state == old(self).state
                &&& (match old(self).pending@[i].kind {
                    AckKind::Subscribe { filter_count } => if suback@.reason_codes.len()
                        == filter_count {
                        r matches Ok(codes) && codes@ == suback@.reason_codes
                    } else {
                        r == Err::<Vec<u8>, MqttError>(MqttError::Protocol)
                    },
                    _ => r == Err::<Vec<u8>, MqttError>(MqttError::Protocol),
                })
            },
    {
        if self.state != SessionState::Connected {
            return Err(MqttError::Protocol);
        }
        let entry = match self.remove_pending(suback.packet_identifier) {
            Some(e) => e,
            None => {
                return Err(MqttError::Protocol);
            },
        };
        match entry.kind {
            AckKind::Subscribe { filter_count } => {
                if suback.reason_codes.len() == filter_count {
                    Ok(vstd::slice::slice_to_vec(suback.reason_codes.as_slice()))
                } else {
                    Err(MqttError::Protocol)
                }
            },
            _ => Err(MqttError::Protocol),
        }
    }

    /// Judge a PUBACK: it must match an outstanding QoS-1 publish; the
    /// waiter is cleared once matched, and a failure reason surfaces
    /// as an error with the identifier still freed.
    pub fn handle_puback(&mut self, puback: &Puback) -> (r: Result<(), MqttError>)
        requires
            old(self).wf(),
        ensures
            final(self).wf(),
            old(self).state != SessionState::Connected ==> r == Err::<(), MqttError>(
                MqttError::Protocol,
            ) && *final(self) == *old(self),
            old(self).state == SessionState::Connected && !spec_has_id(
                old(self).pending@,
                puback@.packet_identifier,
            ) ==> r == Err::<(), MqttError>(MqttError::Protocol) && *final(self) == *old(self),
            old(self).state == SessionState::Connected && spec_has_id(
                old(self).pending@,
                puback@.packet_identifier,
            ) ==> {
                let i = spec_index_of_id(old(self).pending@, puback@.packet_identifier);
                &&& final(self).pending@ == old(self).pending@.remove(i)
                &&& final(self).state == old(self).state
                &&& (match old(self).pending@[i].kind {
                    AckKind::Publish => if puback@.reason_code < 0x80 {
                        r == Ok::<(), MqttError>(())
                    } else {
                        r == Err::<(), MqttError>(MqttError::Protocol)
                    },
                    _ => r == Err::<(), MqttError>(MqttError::Protocol),
                })
            },
    {
        if self.state != SessionState::Connected {
            return Err(MqttError::Protocol);
        }
        let entry = match self.remove_pending(puback.packet_identifier) {
            Some(e) => e,
            None => {
                return Err(MqttError::Protocol);
            },
        };
        match entry.kind {
            AckKind::Publish => {
                if puback.reason_code < 0x80 {
                    Ok(())
                } else {
                    Err(MqttError::Protocol)
                }
            },
            _ => Err(MqttError::Protocol),
        }
    }

    /// Judge an UNSUBACK: it must match an outstanding unsubscribe;
    /// the waiter is cleared once matched.
    pub fn handle_unsuback(&mut self, unsuback: &Unsuback) -> (r: Result<u8, MqttError>)
        requires
            old(self).wf(),
        ensures
            final(self).wf(),
            old(self).state != SessionState::Connected ==> r == Err::<u8, MqttError>(
                MqttError::Protocol,
            ) && *final(self) == *old(self),
            old(self).state == SessionState::Connected && !spec_has_id(
                old(self).pending@,
                unsuback@.packet_identifier,
            ) ==> r == Err::<u8, MqttError>(MqttError::Protocol) && *final(self) == *old(self),
            old(self).state == SessionState::Connected && spec_has_id(
                old(self).pending@,
                unsuback@.packet_identifier,
            ) ==> {
                let i = spec_index_of_id(old(self).pending@, unsuback@.packet_identifier);
                &&& final(self).pending@ == old(self).pending@.remove(i)
                &&& final(self).state == old(self).state
                &&& (match old(self).pending@[i].kind {
                    AckKind::Unsubscribe => if unsuback@.reason_code < 0x80 {
                        r == Ok::<u8, MqttError>(unsuback@.reason_code)
                    } else {
                        r == Err::<u8, MqttError>(MqttError::Protocol)
                    },
                    _ => r == Err::<u8, MqttError>(MqttError::Protocol),
                })
            },
    {
        if self.state != SessionState::Connected {
            return Err(MqttError::Protocol);
        }
        let entry = match self.remove_pending(unsuback.packet_identifier) {
            Some(e) => e,
            None => {
                return Err(MqttError::Protocol);
            },
        };
        match entry.kind {
            AckKind::Unsubscribe => {
                if unsuback.reason_code < 0x80 {
                    Ok(unsuback.reason_code)
                } else {
                    Err(MqttError::Protocol)
                }
            },
            _ => Err(MqttError::Protocol),
        }
    }

    /// Withdraw the waiter for this identifier after its deadline
    /// expired: the identifier is freed, and a late reply will be
    /// dropped as unmatched. Whether a waiter was found comes back.
    pub fn cancel_pending(&mut self, packet_id: u16) -> (found: bool)
        requires
            old(self).wf(),
        ensures
            final(self).wf(),
            final(self).state == old(self).state,
            final(self).next_packet_id == old(self).next_packet_id,
            final(self).ping_pending == old(self).ping_pending,
            final(self).client_id == old(self).client_id,
            final(self).keep_alive == old(self).keep_alive,
            final(self).last_send == old(self).last_send,
            found == spec_has_id(old(self).pending@, packet_id),
            spec_has_id(old(self).pending@, packet_id) ==> final(self).pending@ == old(
                self,
            ).pending@.remove(spec_index_of_id(old(self).pending@, packet_id)),
            !spec_has_id(old(self).pending@, packet_id) ==> final(self).pending == old(
                self,
            ).pending,
    {
        match self.remove_pending(packet_id) {
            Some(_) => true,
            None => false,
        }
    }

    /// Begin a keep-alive ping; the session must be connected.
    pub fn start_ping(&mut self) -> (r: Result<PingReq, MqttError>)
        requires
            old(self).wf(),
        ensures
            final(self).wf(),
            old(self).state != SessionState::Connected ==> r == Err::<PingReq, MqttError>(
                MqttError::SessionClosed,
            ) && *final(self) == *old(self),
            old(self).state == SessionState::Connected ==> r == Ok::<PingReq, MqttError>(
                PingReq {  },
            ) && final(self).ping_pending && final(self).pending == old(self).pending && final(self).state == old(self).state && final(self).next_packet_id == old(self).next_packet_id
                && final(self).client_id == old(self).client_id && final(self).keep_alive == old(
                self,
            ).keep_alive && final(self).last_send == old(self).last_send,
    {
        if self.state != SessionState::Connected {
            return Err(MqttError::SessionClosed);
        }
        self.ping_pending = true;
        Ok(PingReq {  })
    }

    /// Judge a PINGRESP: one must be awaited.
    pub fn handle_pingresp(&mut self) -> (r: Result<(), MqttError>)
        requires
            old(self).wf(),
        ensures
            final(self).wf(),
            old(self).state == SessionState::Connected && old(self).ping_pending ==> r == Ok::<
                (),
                MqttError,
            >(()) && !final(self).ping_pending && final(self).pending == old(self).pending
                && final(self).state == old(self).state && final(self).next_packet_id == old(
                self,
            ).next_packet_id && final(self).client_id == old(self).client_id && final(self).keep_alive == old(self).keep_alive && final(self).last_send == old(self).last_send,
            !(old(self).state == SessionState::Connected && old(self).ping_pending) ==> r == Err::<
                (),
                MqttError,
            >(MqttError::Protocol) && *final(self) == *old(self),
    {
        if self.state != SessionState::Connected || !self.ping_pending {
            return Err(MqttError::Protocol);
        }
        self.ping_pending = false;
        Ok(())
    }

    /// Deliver an inbound PUBLISH: hand the application its message,
    /// and for QoS 1 the PUBACK the reader must send back.
    pub fn handle_inbound_publish(&self, publish: Publish) -> (r: Result<
        (MqttClientMessage, Option<Puback>),
        MqttError,
    >)
        ensures
            self.state != SessionState::Connected ==> r == Err::<
                (MqttClientMessage, Option<Puback>),
                MqttError,
            >(MqttError::SessionClosed),
            self.state == SessionState::Connected ==> match r {
                Ok((msg, ack)) => {
                    &&& msg@.topic == publish@.topic_name
                    &&& msg@.data == publish@.application_message
                    &&& (publish@.qos >= 1 ==> (ack matches Some(a) && a@.packet_identifier
                        == publish@.packet_identifier && a@.reason_code == 0 && a@.properties
                        == Seq::<PropertyView>::empty()))
                    &&& (publish@.qos == 0 ==> ack == None::<Puback>)
                },
                Err(_) => false,
            },
    {
        if self.state != SessionState::Connected {
            return Err(MqttError::SessionClosed);
        }
        let ack: Option<Puback> = if publish.qos >= 1 {
            Some(
                Puback {
                    packet_identifier: publish.packet_identifier,
                    reason_code: 0,
                    properties: VariableHeaderProperties::new(),
                },
            )
        } else {
            None
        };
        let msg = MqttClientMessage { topic: publish.topic_name, data: publish.application_message };
        Ok((msg, ack))
    }

    /// End the session: hand back the DISCONNECT to send and every
    /// waiter still outstanding, each of which the runtime cancels
    /// with `SessionClosed`. No identifier stays allocated.
    pub fn disconnect(&mut self, reason_code: u8) -> (r: Result<
        (Disconnect, Vec<PendingAck>),
        MqttError,
    >)
        requires
            old(self).wf(),
        ensures
            final(self).wf(),
            old(self).state != SessionState::Connected ==> r == Err::<
                (Disconnect, Vec<PendingAck>),
                MqttError,
            >(MqttError::SessionClosed) && *final(self) == *old(self),
            old(self).state == SessionState::Connected ==> match r {
                Ok((d, cancelled)) => {
                    &&& d@.reason_code == reason_code
                    &&& d@.properties == Seq::<PropertyView>::empty()
                    &&& cancelled@ == old(self).pending@
                    &&& final(self).state == SessionState::Disconnected
                    &&& final(self).pending@ == Seq::<PendingAck>::empty()
                    &&& !final(self).ping_pending
                    &&& final(self).next_packet_id == old(self).next_packet_id
                    &&& final(self).client_id == old(self).client_id
                    &&& final(self).keep_alive == old(self).keep_alive
                    &&& final(self).last_send == old(self).last_send
                },
                Err(_) => false,
            },
    {
        if self.state != SessionState::Connected {
            return Err(MqttError::SessionClosed);
        }
        let mut cancelled: Vec<PendingAck> = Vec::new();
        core::mem::swap(&mut cancelled, &mut self.pending);
        self.state = SessionState::Disconnected;
        self.ping_pending = false;
        let d = Disconnect { reason_code, properties: VariableHeaderProperties::new() };
        assert(self.pending@ =~= Seq::<PendingAck>::empty());
        Ok((d, cancelled))
    }

    /// Tear the session down after a transport failure: every waiter
    /// still outstanding comes back, each of which the runtime cancels
    /// with `Transport`. No identifier stays allocated.
    pub fn on_transport_error(&mut self) -> (cancelled: Vec<PendingAck>)
        requires
            old(self).wf(),
        ensures
            final(self).wf(),
            cancelled@ == old(self).pending@,
            final(self).state == SessionState::Disconnected,
            final(self).pending@ == Seq::<PendingAck>::empty(),
            !final(self).ping_pending,
            final(self).next_packet_id == old(self).next_packet_id,
            final(self).client_id == old(self).client_id,
            final(self).keep_alive == old(self).keep_alive,
            final(self).last_send == old(self).last_send,
    {
        let mut cancelled: Vec<PendingAck> = Vec::new();
        core::mem::swap(&mut cancelled, &mut self.pending);
        self.state = SessionState::Disconnected;
        self.ping_pending = false;
        assert(self.pending@ =~= Seq::<PendingAck>::empty());
        cancelled
    }

    /// Whether the keep-alive window has lapsed and a ping is due.
    pub fn should_ping(&self, now: u64) -> (r: bool)
        ensures
            r == (self.state == SessionState::Connected && self.keep_alive > 0 && now
                >= self.last_send + self.keep_alive),
    {
        self.state == SessionState::Connected && self.keep_alive > 0 && now >= self.last_send
            && now - self.last_send >= self.keep_alive as u64
    }

    /// Record the time of a send, refreshing the keep-alive window.
    pub fn record_send(&mut self, now: u64)
        requires
            old(self).wf(),
        ensures
            final(self).wf(),
            final(self).last_send == now,
            final(self).state == old(self).state,
            final(self).pending == old(self).pending,
            final(self).next_packet_id == old(self).next_packet_id,
            final(self).ping_pending == old(self).ping_pending,
            final(self).client_id == old(self).client_id,
            final(self).keep_alive == old(self).keep_alive,
    {
        self.last_send = now;
    }
}

/// Pushing a fresh non-zero identifier keeps the outstanding list
/// lawful.
proof fn lemma_push_fresh_keeps_wf(pending: Seq<PendingAck>, entry: PendingAck)
    requires
        entry.packet_id != 0,
        !spec_has_id(pending, entry.packet_id),
        forall|i: int| 0 <= i < pending.len() ==> (#[trigger] pending[i]).packet_id != 0,
        forall|i: int, j: int|
            0 <= i < j < pending.len() ==> (#[trigger] pending[i]).packet_id != (
            #[trigger] pending[j]).packet_id,
    ensures
        forall|i: int|
            0 <= i < pending.push(entry).len() ==> (#[trigger] pending.push(entry)[i]).packet_id
                != 0,
        forall|i: int, j: int|
            0 <= i < j < pending.push(entry).len() ==> (#[trigger] pending.push(entry)[i]).packet_id
                != (#[trigger] pending.push(entry)[j]).packet_id,
{
    let p2 = pending.push(entry);
    assert forall|i: int| 0 <= i < p2.len() implies (#[trigger] p2[i]).packet_id != 0 by {
        if i < pending.len() {
            assert(p2[i] == pending[i]);
        }
    }
    assert forall|i: int, j: int|
        0 <= i < j < p2.len() implies (#[trigger] p2[i]).packet_id != (
    #[trigger] p2[j]).packet_id by {
        if j < pending.len() {
            assert(p2[i] == pending[i] && p2[j] == pending[j]);
        } else {
            assert(p2[j] == entry);
            assert(p2[i] == pending[i]);
            assert(pending[i].packet_id != entry.packet_id);
        }
    }
}

/// Removing one waiter keeps the outstanding list lawful.
proof fn lemma_remove_keeps_wf(pending: Seq<PendingAck>, k: int)
    requires
        0 <= k < pending.len(),
        forall|i: int| 0 <= i < pending.len() ==> (#[trigger] pending[i]).packet_id != 0,
        forall|i: int, j: int|
            0 <= i < j < pending.len() ==> (#[trigger] pending[i]).packet_id != (
            #[trigger] pending[j]).packet_id,
    ensures
        forall|i: int|
            0 <= i < pending.remove(k).len() ==> (#[trigger] pending.remove(k)[i]).packet_id != 0,
        forall|i: int, j: int|
            0 <= i < j < pending.remove(k).len() ==> (#[trigger] pending.remove(k)[i]).packet_id
                != (#[trigger] pending.remove(k)[j]).packet_id,
{
    let p2 = pending.remove(k);
    assert forall|i: int| 0 <= i < p2.len() implies (#[trigger] p2[i]).packet_id != 0 by {
        if i < k {
            assert(p2[i] == pending[i]);
        } else {
            assert(p2[i] == pending[i + 1]);
        }
    }
    assert forall|i: int, j: int|
        0 <= i < j < p2.len() implies (#[trigger] p2[i]).packet_id != (
    #[trigger] p2[j]).packet_id by {
        let oi = if i < k {
            i
        } else {
            i + 1
        };
        let oj = if j < k {
            j
        } else {
            j + 1
        };
        assert(p2[i] == pending[oi] && p2[j] == pending[oj]);
        assert(pending[oi].packet_id != pending[oj].packet_id);
    }
}

} // verus!
