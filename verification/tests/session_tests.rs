//! Session state machine checks: the handshake, acknowledgement
//! correlation, packet-identifier hygiene, and teardown.

use mqtt::acks::Puback;
use mqtt::connack::Connack;
use mqtt::errors::MqttError;
use mqtt::properties::VariableHeaderProperties;
use mqtt::session::{
    apply_topic_prefix, topic_name_has_wildcard, AckKind, ClientSession, SessionState,
};
use mqtt::suback::Suback;
use mqtt::subscribe::SubscriptionType;

fn connected_session() -> ClientSession {
    let mut session = ClientSession::new("c1".to_string(), 60);
    let connect = session
        .start_connect(true, VariableHeaderProperties::new())
        .unwrap();
    assert_eq!(connect.client_id, "c1");
    assert_eq!(connect.keep_alive, 60);
    let connack = Connack {
        session_present: false,
        reason_code: 0x00,
        properties: VariableHeaderProperties::new(),
    };
    session.handle_connack(&connack).unwrap();
    assert_eq!(session.state, SessionState::Connected);
    session
}

#[test]
fn connack_failure_reason_leaves_the_session_disconnected() {
    // reason 0x80 is "unspecified error"
    let mut session = ClientSession::new("c1".to_string(), 60);
    session
        .start_connect(true, VariableHeaderProperties::new())
        .unwrap();
    let connack = Connack {
        session_present: false,
        reason_code: 0x80,
        properties: VariableHeaderProperties::new(),
    };
    assert_eq!(session.handle_connack(&connack), Err(MqttError::Protocol));
    assert_eq!(session.state, SessionState::Disconnected);
}

#[test]
fn connack_overrides_keep_alive_and_client_id() {
    let mut session = ClientSession::new("wanted".to_string(), 60);
    session
        .start_connect(true, VariableHeaderProperties::new())
        .unwrap();
    let mut props = VariableHeaderProperties::new();
    props.add_property_server_keep_alive(10);
    props.add_property_assigned_client_identifier("given".to_string());
    let connack = Connack {
        session_present: false,
        reason_code: 0x00,
        properties: props,
    };
    session.handle_connack(&connack).unwrap();
    assert_eq!(session.keep_alive, 10);
    assert_eq!(session.client_id, "given");
}

#[test]
fn requests_on_a_disconnected_session_fail_with_session_closed() {
    let mut session = ClientSession::new("c1".to_string(), 60);
    assert_eq!(
        session
            .start_publish("t".to_string(), vec![1], 0, false)
            .err(),
        Some(MqttError::SessionClosed)
    );
    assert_eq!(
        session.start_subscribe(vec![]).err(),
        Some(MqttError::SessionClosed)
    );
    assert_eq!(session.start_ping().err(), Some(MqttError::SessionClosed));
}

#[test]
fn subscribe_with_no_filters_is_a_bad_argument() {
    let mut session = connected_session();
    assert_eq!(
        session.start_subscribe(vec![]).err(),
        Some(MqttError::BadArgument)
    );
    assert!(session.pending.is_empty());
}

#[test]
fn publish_topic_with_wildcard_is_a_bad_argument() {
    let mut session = connected_session();
    assert_eq!(
        session
            .start_publish("a/+/b".to_string(), vec![], 1, false)
            .err(),
        Some(MqttError::BadArgument)
    );
    assert_eq!(
        session
            .start_publish("a/#".to_string(), vec![], 0, false)
            .err(),
        Some(MqttError::BadArgument)
    );
    assert!(session.pending.is_empty());
}

#[test]
fn qos_one_publishes_each_get_their_own_identifier_and_acks_drain_them() {
    let mut session = connected_session();
    let p1 = session
        .start_publish("t/a".to_string(), vec![1], 1, false)
        .unwrap();
    let p2 = session
        .start_publish("t/b".to_string(), vec![2], 1, false)
        .unwrap();
    assert_ne!(p1.packet_identifier, 0);
    assert_ne!(p2.packet_identifier, 0);
    assert_ne!(p1.packet_identifier, p2.packet_identifier);
    assert_eq!(session.pending.len(), 2);

    // acknowledgements may arrive in any order
    let ack2 = Puback {
        packet_identifier: p2.packet_identifier,
        reason_code: 0,
        properties: VariableHeaderProperties::new(),
    };
    session.handle_puback(&ack2).unwrap();
    assert_eq!(session.pending.len(), 1);

    // a second acknowledgement for the same identifier is unmatched
    assert_eq!(session.handle_puback(&ack2), Err(MqttError::Protocol));
    assert_eq!(session.pending.len(), 1);

    let ack1 = Puback {
        packet_identifier: p1.packet_identifier,
        reason_code: 0,
        properties: VariableHeaderProperties::new(),
    };
    session.handle_puback(&ack1).unwrap();
    assert!(session.pending.is_empty());
}

#[test]
fn qos_zero_publish_waits_for_nothing() {
    let mut session = connected_session();
    let p = session
        .start_publish("t".to_string(), vec![1], 0, true)
        .unwrap();
    assert_eq!(p.packet_identifier, 0);
    assert_eq!(p.qos, 0);
    assert!(p.retain);
    assert!(session.pending.is_empty());
}

#[test]
fn suback_must_carry_one_reason_code_per_filter() {
    let mut session = connected_session();
    let sub = session
        .start_subscribe(vec![
            SubscriptionType {
                topic_filter: "t1".to_string(),
                subscription_options: 0,
            },
            SubscriptionType {
                topic_filter: "t2".to_string(),
                subscription_options: 1,
            },
        ])
        .unwrap();
    let id = sub.properties.packet_identifier;

    let suback = Suback {
        packet_identifier: id,
        reason_string: None,
        user_property: None,
        reason_codes: vec![0x00, 0x01],
    };
    let codes = session.handle_suback(&suback).unwrap();
    assert_eq!(codes, vec![0x00, 0x01]);
    assert!(session.pending.is_empty());
}

#[test]
fn suback_with_wrong_count_is_a_protocol_error_but_frees_the_identifier() {
    let mut session = connected_session();
    let sub = session
        .start_subscribe(vec![SubscriptionType {
            topic_filter: "t1".to_string(),
            subscription_options: 0,
        }])
        .unwrap();
    let suback = Suback {
        packet_identifier: sub.properties.packet_identifier,
        reason_string: None,
        user_property: None,
        reason_codes: vec![0x00, 0x00],
    };
    assert_eq!(session.handle_suback(&suback), Err(MqttError::Protocol));
    assert!(session.pending.is_empty());
}

#[test]
fn disconnect_cancels_outstanding_waiters_and_frees_identifiers() {
    let mut session = connected_session();
    let sub = session
        .start_subscribe(vec![SubscriptionType {
            topic_filter: "t".to_string(),
            subscription_options: 0,
        }])
        .unwrap();
    let (packet, cancelled) = session.disconnect(0).unwrap();
    assert_eq!(packet.reason_code, 0);
    assert_eq!(cancelled.len(), 1);
    assert_eq!(cancelled[0].packet_id, sub.properties.packet_identifier);
    assert_eq!(cancelled[0].kind, AckKind::Subscribe { filter_count: 1 });
    assert!(session.pending.is_empty());
    assert_eq!(session.state, SessionState::Disconnected);
}

#[test]
fn transport_failure_cancels_the_publish_waiter() {
    let mut session = connected_session();
    let p = session
        .start_publish("t".to_string(), vec![1], 1, false)
        .unwrap();
    let cancelled = session.on_transport_error();
    assert_eq!(cancelled.len(), 1);
    assert_eq!(cancelled[0].packet_id, p.packet_identifier);
    assert_eq!(cancelled[0].kind, AckKind::Publish);
    assert!(session.pending.is_empty());
    assert_eq!(session.state, SessionState::Disconnected);
}

#[test]
fn packet_identifiers_skip_outstanding_ones_and_wrap() {
    let mut session = connected_session();
    session.next_packet_id = 0xFFFF;
    let p1 = session
        .start_publish("a".to_string(), vec![], 1, false)
        .unwrap();
    assert_eq!(p1.packet_identifier, 0xFFFF);
    // the counter wraps past zero to one
    let p2 = session
        .start_publish("b".to_string(), vec![], 1, false)
        .unwrap();
    assert_eq!(p2.packet_identifier, 1);
    // an identifier still outstanding is skipped
    session.next_packet_id = 1;
    let p3 = session
        .start_publish("c".to_string(), vec![], 1, false)
        .unwrap();
    assert_eq!(p3.packet_identifier, 2);
}

#[test]
fn a_timed_out_wait_frees_its_identifier_and_a_late_ack_is_unmatched() {
    let mut session = connected_session();
    let p = session
        .start_publish("t".to_string(), vec![1], 1, false)
        .unwrap();
    assert!(session.cancel_pending(p.packet_identifier));
    assert!(session.pending.is_empty());
    // the late acknowledgement finds no waiter
    let late = Puback {
        packet_identifier: p.packet_identifier,
        reason_code: 0,
        properties: VariableHeaderProperties::new(),
    };
    assert_eq!(session.handle_puback(&late), Err(MqttError::Protocol));
    assert!(!session.cancel_pending(p.packet_identifier));
}

#[test]
fn ping_flows_through_the_keep_alive_window() {
    let mut session = connected_session();
    session.record_send(100);
    assert!(!session.should_ping(130));
    assert!(session.should_ping(160));
    session.start_ping().unwrap();
    assert!(session.ping_pending);
    session.handle_pingresp().unwrap();
    assert!(!session.ping_pending);
    // a response nobody waits for is out of place
    assert_eq!(session.handle_pingresp(), Err(MqttError::Protocol));
}

#[test]
fn inbound_qos_one_publish_is_acknowledged() {
    let session = connected_session();
    let publish = mqtt::publish::Publish::new(
        false,
        1,
        false,
        "inc".to_string(),
        12,
        VariableHeaderProperties::new(),
        vec![7, 7],
    );
    let (msg, ack) = session.handle_inbound_publish(publish).unwrap();
    assert_eq!(msg.topic, "inc");
    assert_eq!(msg.data, vec![7, 7]);
    let ack = ack.unwrap();
    assert_eq!(ack.packet_identifier, 12);
    assert_eq!(ack.reason_code, 0);
}

#[test]
fn wildcard_scan_and_prefixing() {
    assert!(topic_name_has_wildcard("a/+/b"));
    assert!(topic_name_has_wildcard("a/#"));
    assert!(!topic_name_has_wildcard("a/b/c"));
    assert_eq!(apply_topic_prefix("c1", "inc"), "c1/inc");
}
