//! Crate-level error type.

use vstd::prelude::*;
use crate::cobs;
use prost::DecodeError as ProtobufError;

verus! {

/// An I/O error from the caller's transport.
#[verifier::external_type_specification]
#[verifier::external_body]
pub struct ExIoError(std::io::Error);

/// A protobuf decoding error from `prost`.
#[verifier::external_type_specification]
#[verifier::external_body]
pub struct ExProtobufError(ProtobufError);

/// Crate-level error type.
#[derive(Debug)]
pub enum Error {
    /// CRC mismatch: `expected` is the CRC computed over the frame, `actual`
    /// the CRC the frame carries.
    Crc { expected: u16, actual: u16 },
    /// COBS decode failed.
    Cobs(cobs::DecodeError),
    /// A frame or payload shorter than its fixed part.
    FrameTooShort { len: usize, min: usize },
    /// The device answered a message with a non-zero status.
    Nak { msg_type: u16, status: u8 },
    /// MultiLink registration failed with this status code.
    MultiLinkRegister(u8),
    /// Protobuf decoding failed.
    Protobuf(ProtobufError),
    /// The handshake did not complete in time.
    HandshakeTimeout,
    /// The transport failed.
    Transport(std::io::Error),
}

impl From<cobs::DecodeError> for Error {
    fn from(e: cobs::DecodeError) -> (r: Self) {
        Error::Cobs(e)
    }
}

impl vstd::std_specs::convert::FromSpecImpl<cobs::DecodeError> for Error {
    open spec fn obeys_from_spec() -> bool {
        true
    }

    open spec fn from_spec(e: cobs::DecodeError) -> Self {
        Error::Cobs(e)
    }
}

impl From<ProtobufError> for Error {
    fn from(e: ProtobufError) -> (r: Self) {
        Error::Protobuf(e)
    }
}

impl vstd::std_specs::convert::FromSpecImpl<ProtobufError> for Error {
    open spec fn obeys_from_spec() -> bool {
        true
    }

    open spec fn from_spec(e: ProtobufError) -> Self {
        Error::Protobuf(e)
    }
}

impl From<std::io::Error> for Error {
    fn from(e: std::io::Error) -> (r: Self) {
        Error::Transport(e)
    }
}

impl vstd::std_specs::convert::FromSpecImpl<std::io::Error> for Error {
    open spec fn obeys_from_spec() -> bool {
        true
    }

    open spec fn from_spec(e: std::io::Error) -> Self {
        Error::Transport(e)
    }
}

/// GFDI response status codes.
#[derive(Debug, Clone, Copy, PartialEq, Eq, Structural)]
pub enum ResponseStatus {
    Ack,
    Nak,
    Unsupported,
    CobsError,
    CrcError,
    LengthError,
}

/// The response status with wire code `v`, if any.
pub open spec fn response_status_of(v: u8) -> Option<ResponseStatus> {
    if v == 0 {
        Some(ResponseStatus::Ack)
    } else if v == 1 {
        Some(ResponseStatus::Nak)
    } else if v == 2 {
        Some(ResponseStatus::Unsupported)
    } else if v == 3 {
        Some(ResponseStatus::CobsError)
    } else if v == 4 {
        Some(ResponseStatus::CrcError)
    } else if v == 5 {
        Some(ResponseStatus::LengthError)
    } else {
        None
    }
}

impl ResponseStatus {
    /// The status with wire code `v`, or `None` for an unknown code.
    pub fn from_u8(v: u8) -> (r: Option<Self>)
        ensures
            r == response_status_of(v),
    {
        match v {
            0 => Some(Self::Ack),
            1 => Some(Self::Nak),
            2 => Some(Self::Unsupported),
            3 => Some(Self::CobsError),
            4 => Some(Self::CrcError),
            5 => Some(Self::LengthError),
            _ => None,
        }
    }
}

} // verus!
