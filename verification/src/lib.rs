//! Client-side MQTT v5 library: the binary wire codec for the control
//! packets (CONNECT, CONNACK, PUBLISH, PUBACK, SUBSCRIBE, SUBACK,
//! UNSUBSCRIBE, UNSUBACK, PINGREQ, PINGRESP, DISCONNECT), the client
//! session state machine, and configuration handling.
//!
//! The wire format is stated as spec functions over byte sequences;
//! every encoder and decoder is proved against them, including the
//! round-trip laws connecting the two.

pub mod acks;
pub mod config;
pub mod connack;
pub mod connect;
pub mod disconnect;
pub mod errors;
pub mod fixed_header;
pub mod packet;
pub mod ping;
pub mod publish;
pub mod session;
pub mod suback;
pub mod subscribe;
pub mod unsubscribe;
pub mod primitives;
pub mod properties;
