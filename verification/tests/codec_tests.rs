//! Wire-level checks: variable-byte-integer boundaries, string
//! limits, property order, and one encode-decode round trip per
//! packet kind, with the serialized forms pinned byte for byte where
//! the format fixes them.

use mqtt::acks::{Puback, Unsuback};
use mqtt::connack::Connack;
use mqtt::connect::Connect;
use mqtt::disconnect::Disconnect;
use mqtt::errors::MqttError;
use mqtt::fixed_header::PacketFixedHeader;
use mqtt::packet::{read_packet, PacketReceived};
use mqtt::ping::{PingReq, PingResp};
use mqtt::primitives::{write_string, write_vbi, ByteReader};
use mqtt::properties::{VariableHeaderProperties, VariableHeaderProperty};
use mqtt::publish::Publish;
use mqtt::suback::Suback;
use mqtt::unsubscribe::Unsubscribe;

fn vbi_round_trip(v: u32) -> usize {
    let mut out = Vec::new();
    write_vbi(&mut out, v);
    let n = out.len();
    let mut r = ByteReader::new(out);
    assert_eq!(r.read_vbi().unwrap(), v);
    assert!(r.at_end());
    n
}

#[test]
fn vbi_boundary_lengths() {
    assert_eq!(vbi_round_trip(0), 1);
    assert_eq!(vbi_round_trip(127), 1);
    assert_eq!(vbi_round_trip(128), 2);
    assert_eq!(vbi_round_trip(16383), 2);
    assert_eq!(vbi_round_trip(16384), 3);
    assert_eq!(vbi_round_trip(2097151), 3);
    assert_eq!(vbi_round_trip(2097152), 4);
    assert_eq!(vbi_round_trip(268435455), 4);
}

#[test]
fn vbi_zero_encodes_as_one_zero_byte() {
    let mut out = Vec::new();
    write_vbi(&mut out, 0);
    assert_eq!(out, vec![0x00]);
    let mut out = Vec::new();
    write_vbi(&mut out, 128);
    assert_eq!(out, vec![0x80, 0x01]);
}

#[test]
fn vbi_fourth_continuation_bit_is_malformed() {
    let mut r = ByteReader::new(vec![0x80, 0x80, 0x80, 0x80, 0x01]);
    assert_eq!(r.read_vbi(), Err(MqttError::Malformed));
}

#[test]
fn vbi_trailing_zero_group_is_malformed() {
    let mut r = ByteReader::new(vec![0x80, 0x00]);
    assert_eq!(r.read_vbi(), Err(MqttError::Malformed));
}

#[test]
fn string_of_65535_bytes_round_trips_and_65536_is_rejected() {
    let big = "a".repeat(65535);
    let mut out = Vec::new();
    write_string(&mut out, big.as_str()).unwrap();
    assert_eq!(out.len(), 2 + 65535);
    let mut r = ByteReader::new(out);
    assert_eq!(r.read_string().unwrap(), big);

    let too_big = "a".repeat(65536);
    let mut out = Vec::new();
    assert_eq!(
        write_string(&mut out, too_big.as_str()),
        Err(MqttError::BadArgument)
    );
    assert!(out.is_empty());
}

#[test]
fn invalid_utf8_string_is_malformed() {
    let mut r = ByteReader::new(vec![0x00, 0x01, 0xFF]);
    assert_eq!(r.read_string(), Err(MqttError::Malformed));
}

#[test]
fn property_order_is_preserved() {
    let mut props = VariableHeaderProperties::new();
    props.add_property_user_property("a".to_string(), "1".to_string());
    props.add_property_receive_maximum(9);
    props.add_property_user_property("b".to_string(), "2".to_string());
    props.add_property_user_property("a".to_string(), "3".to_string());
    let bytes = props.as_bytes().unwrap();

    // the body follows the variable-byte-integer length prefix
    let mut r = ByteReader::new(bytes);
    let n = r.read_vbi().unwrap() as usize;
    let body = r.take(n).unwrap();
    let decoded = VariableHeaderProperties::from_be_bytes(body.as_slice()).unwrap();
    assert_eq!(decoded.properties.len(), 4);
    match &decoded.properties[0] {
        VariableHeaderProperty::UserProperty(k, v) => {
            assert_eq!(k, "a");
            assert_eq!(v, "1");
        }
        other => panic!("wrong property: {:?}", other),
    }
    match &decoded.properties[1] {
        VariableHeaderProperty::ReceiveMaximum(m) => assert_eq!(*m, 9),
        other => panic!("wrong property: {:?}", other),
    }
    match &decoded.properties[2] {
        VariableHeaderProperty::UserProperty(k, v) => {
            assert_eq!(k, "b");
            assert_eq!(v, "2");
        }
        other => panic!("wrong property: {:?}", other),
    }
    match &decoded.properties[3] {
        VariableHeaderProperty::UserProperty(k, v) => {
            assert_eq!(k, "a");
            assert_eq!(v, "3");
        }
        other => panic!("wrong property: {:?}", other),
    }
}

#[test]
fn unknown_property_id_is_malformed() {
    // id 0x05 is outside the property table
    let body = vec![0x05u8, 0x00];
    assert_eq!(
        VariableHeaderProperties::from_be_bytes(body.as_slice()).err(),
        Some(MqttError::Malformed)
    );
}

#[test]
fn connect_serialized_form() {
    // client id "c1", keep-alive 60, clean start, no properties
    let connect = Connect::new(
        true,
        60,
        VariableHeaderProperties::new(),
        "c1".to_string(),
    );
    let mut out = Vec::new();
    connect.write_to(&mut out).unwrap();
    assert_eq!(
        out,
        vec![
            0x10, 15, // fixed header: CONNECT, remaining length
            0x00, 0x04, 0x4D, 0x51, 0x54, 0x54, // protocol name "MQTT"
            0x05, // protocol version
            0x02, // connect flags: clean start
            0x00, 0x3C, // keep-alive 60
            0x00, // empty properties
            0x00, 0x02, 0x63, 0x31, // client id "c1"
        ]
    );
}

#[test]
fn connect_round_trips() {
    let mut props = VariableHeaderProperties::new();
    props.add_property_session_expiry_interval(300);
    props.add_property_user_property("k".to_string(), "v".to_string());
    let mut connect = Connect::new(true, 30, props, "client-7".to_string());
    connect.username = Some("user".to_string());
    connect.password = Some(vec![1, 2, 3]);
    let mut out = Vec::new();
    connect.write_to(&mut out).unwrap();

    let mut r = ByteReader::new(out);
    let h = PacketFixedHeader::read_from(&mut r).unwrap();
    assert_eq!(h.packet_type, 0x10);
    let got = Connect::read_from(&mut r, h.remaining_length).unwrap();
    assert_eq!(got.clean_start, connect.clean_start);
    assert_eq!(got.keep_alive, connect.keep_alive);
    assert_eq!(got.client_id, connect.client_id);
    assert_eq!(got.username, connect.username);
    assert_eq!(got.password, connect.password);
    assert!(got.will.is_none());
    assert_eq!(got.properties.properties.len(), 2);
}

#[test]
fn connack_round_trips() {
    let connect = Connect::new(true, 60, VariableHeaderProperties::new(), "c".to_string());
    let connack = Connack::new(connect);
    assert!(connack.is_success());
    assert_eq!(connack.reason_code, 0x00);
    assert!(connack.session_present);
    assert_eq!(connack.properties.properties.len(), 17);

    let mut out = Vec::new();
    connack.write_to(&mut out).unwrap();
    let mut r = ByteReader::new(out);
    let h = PacketFixedHeader::read_from(&mut r).unwrap();
    assert_eq!(h.packet_type, 0x20);
    let got = Connack::read_from(&mut r, h.remaining_length).unwrap();
    assert_eq!(got.session_present, connack.session_present);
    assert_eq!(got.reason_code, connack.reason_code);
    assert_eq!(got.properties.properties.len(), 17);
    match &got.properties.properties[0] {
        VariableHeaderProperty::SessionExpiryInterval(v) => assert_eq!(*v, 500),
        other => panic!("wrong property: {:?}", other),
    }
    match &got.properties.properties[1] {
        VariableHeaderProperty::AssignedClientIdentifier(c) => assert_eq!(c, "client"),
        other => panic!("wrong property: {:?}", other),
    }
    match &got.properties.properties[12] {
        VariableHeaderProperty::UserProperty(k, v) => {
            assert_eq!(k, "key");
            assert_eq!(v, "value");
        }
        other => panic!("wrong property: {:?}", other),
    }
}

#[test]
fn publish_serialized_form() {
    // publish("sensors/a", {0x01, 0x02}, qos 1, no retain), packet id 1
    let publish = Publish::new(
        false,
        1,
        false,
        "sensors/a".to_string(),
        1,
        VariableHeaderProperties::new(),
        vec![0x01, 0x02],
    );
    let mut out = Vec::new();
    publish.write_to(&mut out).unwrap();
    let mut expected = vec![0x32u8, 16];
    expected.extend_from_slice(&[0x00, 0x09]);
    expected.extend_from_slice(b"sensors/a");
    expected.extend_from_slice(&[0x00, 0x01, 0x00, 0x01, 0x02]);
    assert_eq!(out, expected);
}

#[test]
fn publish_round_trips() {
    let publish = Publish::new(
        true,
        1,
        true,
        "t/x".to_string(),
        7,
        VariableHeaderProperties::new(),
        vec![9, 8, 7],
    );
    let mut out = Vec::new();
    publish.write_to(&mut out).unwrap();
    let mut r = ByteReader::new(out);
    let h = PacketFixedHeader::read_from(&mut r).unwrap();
    let got = Publish::read_from(&mut r, h.packet_type, h.remaining_length).unwrap();
    assert!(got.dup);
    assert_eq!(got.qos, 1);
    assert!(got.retain);
    assert_eq!(got.topic_name, "t/x");
    assert_eq!(got.packet_identifier, 7);
    assert_eq!(got.application_message, vec![9, 8, 7]);
}

#[test]
fn publish_qos_zero_never_carries_an_identifier() {
    // a stale non-zero identifier is not emitted at QoS 0; the decoder
    // reads the packet back with identifier 0
    let publish = Publish::new(
        false,
        0,
        false,
        "t".to_string(),
        1,
        VariableHeaderProperties::new(),
        vec![5],
    );
    let mut out = Vec::new();
    publish.write_to(&mut out).unwrap();
    let mut r = ByteReader::new(out);
    let h = PacketFixedHeader::read_from(&mut r).unwrap();
    let got = Publish::read_from(&mut r, h.packet_type, h.remaining_length).unwrap();
    assert_eq!(got.packet_identifier, 0);
    assert_eq!(got.qos, 0);
    assert_eq!(got.topic_name, "t");
    assert_eq!(got.application_message, vec![5]);
}

#[test]
fn subscribe_serialized_form() {
    // subscribe([("t1", 0x00), ("t2", 0x01)]) with packet id 5
    let subscribe = mqtt::subscribe::_Subscribe::_new(mqtt::subscribe::SubscribeProperties {
        packet_identifier: 5,
        subscription_identifier: None,
        user_property: None,
        topic_filters: vec![
            mqtt::subscribe::SubscriptionType {
                topic_filter: "t1".to_string(),
                subscription_options: 0x00,
            },
            mqtt::subscribe::SubscriptionType {
                topic_filter: "t2".to_string(),
                subscription_options: 0x01,
            },
        ],
    });
    let mut out = Vec::new();
    subscribe.write_to(&mut out).unwrap();
    let mut expected = vec![0x82u8, 13, 0x00, 0x05, 0x00];
    expected.extend_from_slice(&[0x00, 0x02]);
    expected.extend_from_slice(b"t1");
    expected.extend_from_slice(&[0x00]);
    expected.extend_from_slice(&[0x00, 0x02]);
    expected.extend_from_slice(b"t2");
    expected.extend_from_slice(&[0x01]);
    assert_eq!(out, expected);
}

#[test]
fn subscribe_with_no_filters_is_rejected() {
    let subscribe = mqtt::subscribe::_Subscribe::_new(mqtt::subscribe::SubscribeProperties {
        packet_identifier: 1,
        subscription_identifier: None,
        user_property: None,
        topic_filters: vec![],
    });
    let mut out = Vec::new();
    assert_eq!(subscribe.write_to(&mut out), Err(MqttError::BadArgument));
    assert!(out.is_empty());
}

#[test]
fn suback_round_trips() {
    let suback = Suback {
        packet_identifier: 5,
        reason_string: Some("granted".to_string()),
        user_property: None,
        reason_codes: vec![0x00, 0x01, 0x80],
    };
    let mut out = Vec::new();
    suback.write_to(&mut out).unwrap();
    let mut r = ByteReader::new(out);
    let h = PacketFixedHeader::read_from(&mut r).unwrap();
    assert_eq!(h.packet_type, 0x90);
    let got = Suback::read_from(&mut r, h.remaining_length).unwrap();
    assert_eq!(got.packet_identifier, 5);
    assert_eq!(got.reason_string, Some("granted".to_string()));
    assert_eq!(got.user_property, None);
    assert_eq!(got.reason_codes, vec![0x00, 0x01, 0x80]);
}

#[test]
fn puback_short_form_round_trips() {
    let puback = Puback {
        packet_identifier: 9,
        reason_code: 0,
        properties: VariableHeaderProperties::new(),
    };
    let mut out = Vec::new();
    puback.write_to(&mut out).unwrap();
    assert_eq!(out, vec![0x40, 2, 0x00, 0x09]);
    let mut r = ByteReader::new(out);
    let h = PacketFixedHeader::read_from(&mut r).unwrap();
    let got = Puback::read_from(&mut r, h.remaining_length).unwrap();
    assert_eq!(got.packet_identifier, 9);
    assert_eq!(got.reason_code, 0);
    assert!(got.properties.properties.is_empty());
}

#[test]
fn puback_with_reason_round_trips() {
    let puback = Puback {
        packet_identifier: 3,
        reason_code: 0x87,
        properties: VariableHeaderProperties::new(),
    };
    let mut out = Vec::new();
    puback.write_to(&mut out).unwrap();
    let mut r = ByteReader::new(out);
    let h = PacketFixedHeader::read_from(&mut r).unwrap();
    let got = Puback::read_from(&mut r, h.remaining_length).unwrap();
    assert_eq!(got.packet_identifier, 3);
    assert_eq!(got.reason_code, 0x87);
}

#[test]
fn unsubscribe_and_unsuback_round_trip() {
    let unsub = Unsubscribe {
        packet_identifier: 11,
        user_property: None,
        topic_filters: vec!["a/b".to_string(), "c".to_string()],
    };
    let mut out = Vec::new();
    unsub.write_to(&mut out).unwrap();
    let mut r = ByteReader::new(out);
    let h = PacketFixedHeader::read_from(&mut r).unwrap();
    assert_eq!(h.packet_type, 0xA2);
    let got = Unsubscribe::read_from(&mut r, h.remaining_length).unwrap();
    assert_eq!(got.packet_identifier, 11);
    assert_eq!(got.topic_filters, vec!["a/b".to_string(), "c".to_string()]);

    let unsuback = Unsuback {
        packet_identifier: 11,
        reason_code: 0,
        properties: VariableHeaderProperties::new(),
    };
    let mut out = Vec::new();
    unsuback.write_to(&mut out).unwrap();
    let mut r = ByteReader::new(out);
    let h = PacketFixedHeader::read_from(&mut r).unwrap();
    assert_eq!(h.packet_type, 0xB0);
    let got = Unsuback::read_from(&mut r, h.remaining_length).unwrap();
    assert_eq!(got.packet_identifier, 11);
    assert_eq!(got.reason_code, 0);
}

#[test]
fn ping_packets_are_two_bytes() {
    let mut out = Vec::new();
    PingReq {}.write_to(&mut out).unwrap();
    assert_eq!(out, vec![0xC0, 0x00]);
    let mut out = Vec::new();
    PingResp {}.write_to(&mut out).unwrap();
    assert_eq!(out, vec![0xD0, 0x00]);
}

#[test]
fn disconnect_normal_is_two_bytes() {
    let d = Disconnect {
        reason_code: 0,
        properties: VariableHeaderProperties::new(),
    };
    let mut out = Vec::new();
    d.write_to(&mut out).unwrap();
    assert_eq!(out, vec![0xE0, 0x00]);

    let d = Disconnect {
        reason_code: 0x8E,
        properties: VariableHeaderProperties::new(),
    };
    let mut out = Vec::new();
    d.write_to(&mut out).unwrap();
    let mut r = ByteReader::new(out);
    let h = PacketFixedHeader::read_from(&mut r).unwrap();
    let got = Disconnect::read_from(&mut r, h.remaining_length).unwrap();
    assert_eq!(got.reason_code, 0x8E);
}

#[test]
fn read_packet_dispatches_by_type() {
    let publish = Publish::new(
        false,
        0,
        false,
        "news".to_string(),
        0,
        VariableHeaderProperties::new(),
        vec![42],
    );
    let mut out = Vec::new();
    publish.write_to(&mut out).unwrap();
    PingResp {}.write_to(&mut out).unwrap();

    let mut r = ByteReader::new(out);
    match read_packet(&mut r).unwrap() {
        PacketReceived::Publish(p) => {
            assert_eq!(p.topic_name, "news");
            assert_eq!(p.application_message, vec![42]);
        }
        other => panic!("wrong packet: {:?}", other),
    }
    match read_packet(&mut r).unwrap() {
        PacketReceived::PingResp(_) => {}
        other => panic!("wrong packet: {:?}", other),
    }
    assert!(r.at_end());
}

#[test]
fn truncated_packet_is_malformed() {
    let publish = Publish::new(
        false,
        0,
        false,
        "t".to_string(),
        0,
        VariableHeaderProperties::new(),
        vec![1, 2, 3],
    );
    let mut out = Vec::new();
    publish.write_to(&mut out).unwrap();
    out.truncate(out.len() - 1);
    let mut r = ByteReader::new(out);
    assert_eq!(read_packet(&mut r).err(), Some(MqttError::Malformed));
}
