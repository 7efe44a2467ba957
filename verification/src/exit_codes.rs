//! Exit-status classes for the node process.
//!
//! Every unrecoverable error the node can die with is classified here; the
//! numeric code reported to the operating system is a function of the class
//! alone, never of the message carried with it.

use vstd::prelude::*;
use vstd::string::StringExecFns;

verus! {

/// Failure classes, without the human-readable detail.
#[derive(Debug, Clone, Copy, PartialEq, Eq, Structural)]
pub enum ExitCode {
    ConfigError,
    UnknownError,
    InterfaceError,
    WalletError,
    GrpcError,
    InputError,
    CommandError,
    IOError,
    RecoveryError,
    NetworkError,
    ConversionError,
    IncorrectOrEmptyPassword,
    TorOffline,
    DatabaseError,
    DbInconsistentState,
}

impl ExitCode {
    /// The operator hint printed alongside this class; empty for classes
    /// that need none.
    pub open spec fn hint_spec(self) -> Seq<char> {
        if self is TorOffline {
            tor_hint_view()
        } else {
            ""@
        }
    }

    /// Returns a hint that helps an operator act on the failure.
    pub fn hint(&self) -> (r: &'static str)
        ensures
            r@ == self.hint_spec(),
    {
        match self {
            ExitCode::TorOffline => tor_hint_text(),
            _ => "",
        }
    }
}

/// Advice shown when the Tor control port cannot be reached.
pub open spec fn tor_hint_view() -> Seq<char> {
    "Unable to connect to the Tor control port.\n\nPlease check that you have the Tor proxy running and that access to the Tor control port is turned on.\n\nIf you are unsure of what to do, use the following command to start the Tor proxy:\ntor --allow-missing-torrc --ignore-missing-torrc --clientonly 1 --socksport 9050 --controlport 127.0.0.1:9051 --log \"warn stdout\" --clientuseipv6 1\n"@
}

/// Advice printed when the Tor control port cannot be reached.
pub fn tor_hint_text() -> (r: &'static str)
    ensures
        r@ == tor_hint_view(),
{
    "Unable to connect to the Tor control port.\n\nPlease check that you have the Tor proxy running and that access to the Tor control port is turned on.\n\nIf you are unsure of what to do, use the following command to start the Tor proxy:\ntor --allow-missing-torrc --ignore-missing-torrc --clientonly 1 --socksport 9050 --controlport 127.0.0.1:9051 --log \"warn stdout\" --clientuseipv6 1\n"
}

/// Failure classes together with the detail string shown to the user.
#[derive(Debug, Clone)]
pub enum ExitCodes {
    ConfigError(String),
    UnknownError(String),
    InterfaceError,
    WalletError(String),
    GrpcError(String),
    InputError(String),
    CommandError(String),
    IOError(String),
    RecoveryError(String),
    NetworkError(String),
    ConversionError(String),
    IncorrectPassword,
    NoPassword,
    DatabaseError(String),
    TorOffline,
    DbInconsistentState(String),
}

impl ExitCodes {
    /// The numeric process exit code of this failure.
    pub open spec fn as_i32_spec(&self) -> i32 {
        match self {
            ExitCodes::ConfigError(_) => 101,
            ExitCodes::UnknownError(_) => 102,
            ExitCodes::InterfaceError => 103,
            ExitCodes::WalletError(_) => 104,
            ExitCodes::GrpcError(_) => 105,
            ExitCodes::InputError(_) => 106,
            ExitCodes::CommandError(_) => 107,
            ExitCodes::IOError(_) => 108,
            ExitCodes::RecoveryError(_) => 109,
            ExitCodes::NetworkError(_) => 110,
            ExitCodes::ConversionError(_) => 111,
            ExitCodes::IncorrectPassword => 112,
            ExitCodes::NoPassword => 112,
            ExitCodes::TorOffline => 113,
            ExitCodes::DatabaseError(_) => 114,
            ExitCodes::DbInconsistentState(_) => 115,
        }
    }

    /// Returns the numeric exit code reported to the operating system.
    pub fn as_i32(&self) -> (code: i32)
        ensures
            code == self.as_i32_spec(),
            101 <= code <= 115,
    {
        match self {
            ExitCodes::ConfigError(_) => 101,
            ExitCodes::UnknownError(_) => 102,
            ExitCodes::InterfaceError => 103,
            ExitCodes::WalletError(_) => 104,
            ExitCodes::GrpcError(_) => 105,
            ExitCodes::InputError(_) => 106,
            ExitCodes::CommandError(_) => 107,
            ExitCodes::IOError(_) => 108,
            ExitCodes::RecoveryError(_) => 109,
            ExitCodes::NetworkError(_) => 110,
            ExitCodes::ConversionError(_) => 111,
            ExitCodes::IncorrectPassword => 112,
            ExitCodes::NoPassword => 112,
            ExitCodes::TorOffline => 113,
            ExitCodes::DatabaseError(_) => 114,
            ExitCodes::DbInconsistentState(_) => 115,
        }
    }

    /// Wraps a GRPC connection failure, prefixing the message so the user
    /// sees which subsystem failed.
    pub fn grpc(err: String) -> (r: ExitCodes)
        ensures
            match r {
                ExitCodes::GrpcError(s) => s@ == "GRPC connection error: "@ + err@,
                _ => false,
            },
    {
        ExitCodes::GrpcError(String::from_str("GRPC connection error: ").concat(err.as_str()))
    }
}

/// A failure class paired with optional detail, as carried to the exit path.
#[derive(Debug, Clone)]
pub struct ExitError {
    /// The failure class.
    pub exit_code: ExitCode,
    /// Optional human-readable detail.
    pub details: Option<String>,
}

impl ExitError {
    /// Builds an exit error from its class and optional detail.
    pub fn new(exit_code: ExitCode, details: Option<String>) -> (r: ExitError)
        ensures
            r.exit_code == exit_code,
            r.details == details,
    {
        ExitError { exit_code, details }
    }

    /// The failure class of this error.
    pub fn exit_code(&self) -> (r: ExitCode)
        ensures
            r == self.exit_code,
    {
        self.exit_code
    }

    /// The detail string, empty when none was recorded.
    pub fn details_or_empty(&self) -> (r: &str)
        ensures
            match self.details {
                Some(s) => r@ == s@,
                None => r@ == ""@,
            },
    {
        match &self.details {
            Some(s) => s.as_str(),
            None => "",
        }
    }
}

impl From<ExitCodes> for ExitError {
    /// Collapses the detailed failure enum onto its class, carrying the
    /// detail string across where one exists.
    fn from(codes: ExitCodes) -> (r: ExitError) {
        match codes {
            ExitCodes::ConfigError(s) => ExitError::new(ExitCode::ConfigError, Some(s)),
            ExitCodes::UnknownError(s) => ExitError::new(ExitCode::UnknownError, Some(s)),
            ExitCodes::InterfaceError => ExitError::new(ExitCode::InterfaceError, None),
            ExitCodes::WalletError(s) => ExitError::new(ExitCode::WalletError, Some(s)),
            ExitCodes::GrpcError(s) => ExitError::new(ExitCode::GrpcError, Some(s)),
            ExitCodes::InputError(s) => ExitError::new(ExitCode::InputError, Some(s)),
            ExitCodes::CommandError(s) => ExitError::new(ExitCode::CommandError, Some(s)),
            ExitCodes::IOError(s) => ExitError::new(ExitCode::IOError, Some(s)),
            ExitCodes::RecoveryError(s) => ExitError::new(ExitCode::RecoveryError, Some(s)),
            ExitCodes::NetworkError(s) => ExitError::new(ExitCode::NetworkError, Some(s)),
            ExitCodes::ConversionError(s) => ExitError::new(ExitCode::ConversionError, Some(s)),
            ExitCodes::IncorrectPassword => ExitError::new(ExitCode::IncorrectOrEmptyPassword, None),
            ExitCodes::NoPassword => ExitError::new(ExitCode::IncorrectOrEmptyPassword, None),
            ExitCodes::TorOffline => ExitError::new(ExitCode::TorOffline, None),
            ExitCodes::DatabaseError(s) => ExitError::new(ExitCode::DatabaseError, Some(s)),
            ExitCodes::DbInconsistentState(s) => ExitError::new(ExitCode::DbInconsistentState, Some(s)),
        }
    }
}

impl vstd::std_specs::convert::FromSpecImpl<ExitCodes> for ExitError {
    open spec fn obeys_from_spec() -> bool {
        true
    }

    open spec fn from_spec(codes: ExitCodes) -> ExitError {
        match codes {
            ExitCodes::ConfigError(s) => ExitError { exit_code: ExitCode::ConfigError, details: Some(s) },
            ExitCodes::UnknownError(s) => ExitError { exit_code: ExitCode::UnknownError, details: Some(s) },
            ExitCodes::InterfaceError => ExitError { exit_code: ExitCode::InterfaceError, details: None },
            ExitCodes::WalletError(s) => ExitError { exit_code: ExitCode::WalletError, details: Some(s) },
            ExitCodes::GrpcError(s) => ExitError { exit_code: ExitCode::GrpcError, details: Some(s) },
            ExitCodes::InputError(s) => ExitError { exit_code: ExitCode::InputError, details: Some(s) },
            ExitCodes::CommandError(s) => ExitError { exit_code: ExitCode::CommandError, details: Some(s) },
            ExitCodes::IOError(s) => ExitError { exit_code: ExitCode::IOError, details: Some(s) },
            ExitCodes::RecoveryError(s) => ExitError { exit_code: ExitCode::RecoveryError, details: Some(s) },
            ExitCodes::NetworkError(s) => ExitError { exit_code: ExitCode::NetworkError, details: Some(s) },
            ExitCodes::ConversionError(s) => ExitError { exit_code: ExitCode::ConversionError, details: Some(s) },
            ExitCodes::IncorrectPassword => ExitError { exit_code: ExitCode::IncorrectOrEmptyPassword, details: None },
            ExitCodes::NoPassword => ExitError { exit_code: ExitCode::IncorrectOrEmptyPassword, details: None },
            ExitCodes::TorOffline => ExitError { exit_code: ExitCode::TorOffline, details: None },
            ExitCodes::DatabaseError(s) => ExitError { exit_code: ExitCode::DatabaseError, details: Some(s) },
            ExitCodes::DbInconsistentState(s) => ExitError { exit_code: ExitCode::DbInconsistentState, details: Some(s) },
        }
    }
}

} // verus!
