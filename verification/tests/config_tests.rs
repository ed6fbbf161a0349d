//! Configuration checks: the `key: value` loader, its numeric and
//! boolean values, line splitting, and address formatting.

use mqtt::config::{parse_config_line, parse_decimal_u16, parse_decimal_u32, ClientConfig,
    ServerConfig};
use mqtt::errors::MqttError;

fn pairs(entries: &[(&str, &str)]) -> Vec<(String, String)> {
    entries
        .iter()
        .map(|(k, v)| (k.to_string(), v.to_string()))
        .collect()
}

#[test]
fn client_config_loads_every_key() {
    let params = pairs(&[
        ("host", "localhost"),
        ("port", "1883"),
        ("client_id", "c1"),
        ("keep_alive_seconds", "30"),
        ("clean_start", "false"),
        ("username", "u"),
        ("password", "p"),
        ("session_expiry", "300"),
        ("receive_maximum", "20"),
        ("maximum_packet_size", "4096"),
        ("topic_alias_maximum", "5"),
        ("request_response_info", "true"),
        ("request_problem_info", "false"),
        ("auth_method", "plain"),
        ("auth_data", "SECRET-REDACTED"),
        ("default_publish_qos", "1"),
        ("default_publish_retain", "true"),
        ("topic_filter_prefix", "c1"),
    ]);
    let config = ClientConfig::set_params(params.as_slice()).unwrap();
    assert_eq!(config.host, "localhost");
    assert_eq!(config.port, 1883);
    assert_eq!(config.client_id, "c1");
    assert_eq!(config.keep_alive_seconds, 30);
    assert!(!config.clean_start);
    assert_eq!(config.username, Some("u".to_string()));
    assert_eq!(config.password, Some("p".to_string()));
    assert_eq!(config.session_expiry, Some(300));
    assert_eq!(config.receive_maximum, Some(20));
    assert_eq!(config.maximum_packet_size, Some(4096));
    assert_eq!(config.topic_alias_maximum, Some(5));
    assert_eq!(config.request_response_info, Some(true));
    assert_eq!(config.request_problem_info, Some(false));
    assert_eq!(config.auth_method, Some("plain".to_string()));
    assert_eq!(config.default_publish_qos, 1);
    assert!(config.default_publish_retain);
    assert_eq!(config.topic_filter_prefix, Some("c1".to_string()));
    assert_eq!(config.get_address(), "localhost:1883");
}

#[test]
fn unknown_key_fails_the_loader() {
    let params = pairs(&[("host", "x"), ("colour", "blue")]);
    assert_eq!(
        ClientConfig::set_params(params.as_slice()).err(),
        Some(MqttError::BadArgument)
    );
}

#[test]
fn unreadable_values_fail_the_loader() {
    for (k, v) in [
        ("port", "65536"),
        ("port", "12x"),
        ("clean_start", "yes"),
        ("default_publish_qos", "3"),
        ("keep_alive_seconds", ""),
    ] {
        let params = pairs(&[(k, v)]);
        assert_eq!(
            ClientConfig::set_params(params.as_slice()).err(),
            Some(MqttError::BadArgument),
            "{}: {}",
            k,
            v
        );
    }
}

#[test]
fn defaults_stand_until_overridden() {
    let config = ClientConfig::set_params(&[]).unwrap();
    assert_eq!(config.port, 0);
    assert_eq!(config.keep_alive_seconds, 60);
    assert!(config.clean_start);
    assert_eq!(config.username, None);
    assert_eq!(config.default_publish_qos, 0);
}

#[test]
fn server_config_loads_ip_and_port() {
    let params = pairs(&[("ip", "127.0.0.1"), ("port", "1883")]);
    let config = ServerConfig::set_params(params.as_slice()).unwrap();
    assert_eq!(config.ip, "127.0.0.1");
    assert_eq!(config.port, 1883);
    assert_eq!(config.get_address(), "127.0.0.1:1883");
    let params = pairs(&[("host", "x")]);
    assert_eq!(
        ServerConfig::set_params(params.as_slice()).err(),
        Some(MqttError::BadArgument)
    );
}

#[test]
fn decimal_parsing_sits_on_its_boundaries() {
    assert_eq!(parse_decimal_u16("0"), Some(0));
    assert_eq!(parse_decimal_u16("65535"), Some(65535));
    assert_eq!(parse_decimal_u16("65536"), None);
    assert_eq!(parse_decimal_u32("4294967295"), Some(4294967295));
    assert_eq!(parse_decimal_u32("4294967296"), None);
    assert_eq!(parse_decimal_u32(""), None);
    assert_eq!(parse_decimal_u32("-1"), None);
    assert_eq!(parse_decimal_u32("1 2"), None);
}

#[test]
fn config_lines_split_at_the_first_colon_and_trim() {
    assert_eq!(
        parse_config_line("host: localhost"),
        Some(("host".to_string(), "localhost".to_string()))
    );
    assert_eq!(
        parse_config_line("  topic_filter_prefix :  c1/x \r"),
        Some(("topic_filter_prefix".to_string(), "c1/x".to_string()))
    );
    // only the first colon splits, so values may hold colons
    assert_eq!(
        parse_config_line("host: ::1"),
        Some(("host".to_string(), "::1".to_string()))
    );
    assert_eq!(parse_config_line("no separator"), None);
    assert_eq!(
        parse_config_line(":"),
        Some(("".to_string(), "".to_string()))
    );
}
