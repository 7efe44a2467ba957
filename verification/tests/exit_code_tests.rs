//! Tests of the exit-code tables, the command argument types, and the
//! connection bookkeeping accessors.

use node_core::connection::{ConnectionDirection, NegotiatedSubstream, PeerConnection, PeerFeatures};
use node_core::exit_codes::{ExitCode, ExitCodes, ExitError};
use node_core::watch_command::Args;

#[test]
fn exit_codes_as_i32() {
    assert_eq!(ExitCodes::ConfigError(String::from("x")).as_i32(), 101);
    assert_eq!(ExitCodes::UnknownError(String::from("x")).as_i32(), 102);
    assert_eq!(ExitCodes::InterfaceError.as_i32(), 103);
    assert_eq!(ExitCodes::WalletError(String::from("x")).as_i32(), 104);
    assert_eq!(ExitCodes::GrpcError(String::from("x")).as_i32(), 105);
    assert_eq!(ExitCodes::InputError(String::from("x")).as_i32(), 106);
    assert_eq!(ExitCodes::CommandError(String::from("x")).as_i32(), 107);
    assert_eq!(ExitCodes::IOError(String::from("x")).as_i32(), 108);
    assert_eq!(ExitCodes::RecoveryError(String::from("x")).as_i32(), 109);
    assert_eq!(ExitCodes::NetworkError(String::from("x")).as_i32(), 110);
    assert_eq!(ExitCodes::ConversionError(String::from("x")).as_i32(), 111);
    assert_eq!(ExitCodes::IncorrectPassword.as_i32(), 112);
    assert_eq!(ExitCodes::NoPassword.as_i32(), 112);
    assert_eq!(ExitCodes::TorOffline.as_i32(), 113);
    assert_eq!(ExitCodes::DatabaseError(String::from("x")).as_i32(), 114);
    assert_eq!(ExitCodes::DbInconsistentState(String::from("x")).as_i32(), 115);
}

#[test]
fn grpc_error_carries_prefixed_message() {
    let e = ExitCodes::grpc(String::from("connection refused"));
    match e {
        ExitCodes::GrpcError(msg) => {
            assert_eq!(msg, "GRPC connection error: connection refused");
        },
        _ => panic!("expected a GRPC error"),
    }
}

#[test]
fn hint_is_given_for_tor_only() {
    assert!(ExitCode::TorOffline.hint().contains("Tor control port"));
    assert_eq!(ExitCode::ConfigError.hint(), "");
    assert_eq!(ExitCode::DatabaseError.hint(), "");
}

#[test]
fn exit_error_from_exit_codes() {
    let err = ExitError::from(ExitCodes::ConfigError(String::from("bad key")));
    assert_eq!(err.exit_code(), ExitCode::ConfigError);
    assert_eq!(err.details_or_empty(), "bad key");

    let err = ExitError::from(ExitCodes::IncorrectPassword);
    assert_eq!(err.exit_code(), ExitCode::IncorrectOrEmptyPassword);
    assert_eq!(err.details_or_empty(), "");

    let err = ExitError::from(ExitCodes::NoPassword);
    assert_eq!(err.exit_code(), ExitCode::IncorrectOrEmptyPassword);

    let err = ExitError::new(ExitCode::NetworkError, Some(String::from("link down")));
    assert_eq!(err.exit_code(), ExitCode::NetworkError);
    assert_eq!(err.details_or_empty(), "link down");
}

#[test]
fn watch_command_line_defaults_to_status() {
    let args = Args { interval: None, command: None };
    assert_eq!(args.line(), "status");
    let args = Args { interval: Some(5), command: Some(String::from("metrics")) };
    assert_eq!(args.line(), "metrics");
}

#[test]
fn peer_connection_accessors() {
    let c = PeerConnection::new(
        7,
        42,
        PeerFeatures::CommunicationNode,
        vec![4, 5],
        ConnectionDirection::Outbound,
    );
    assert_eq!(c.id(), 7);
    assert_eq!(c.peer_node_id(), 42);
    assert_eq!(c.peer_features(), PeerFeatures::CommunicationNode);
    assert_eq!(c.direction(), ConnectionDirection::Outbound);
    assert_eq!(c.address(), &vec![4, 5]);
    assert!(c.is_connected());
    assert_eq!(c.age(), 0);
    assert_eq!(c.substream_count(), 0);
    assert_eq!(c.handle_count(), 1);
}

#[test]
fn negotiated_substream_pairs_protocol_and_stream() {
    let s = NegotiatedSubstream::new(vec![0x2f, 0x74], 1234u32);
    assert_eq!(s.protocol, vec![0x2f, 0x74]);
    assert_eq!(s.stream, 1234);
}
