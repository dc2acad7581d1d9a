use vstd::prelude::*;

verus! {

/// A required field of the server-list document.
#[derive(Clone, Copy, Debug, PartialEq, Eq, Structural)]
pub enum FieldName {
    Servers,
    Name,
    Ip,
}

/// Failure decoding the binary server-list (NBT) document.
#[derive(Clone, Copy, Debug, PartialEq, Eq, Structural)]
pub enum DecodeError {
    /// The input ended before the structure it announces was complete.
    Truncated { offset: usize },
    /// A tag type invalid at this position.
    UnexpectedTag { offset: usize, found: u8 },
    /// A length field that is negative or inconsistent.
    BadLength { offset: usize },
    /// A required field was absent.
    MissingField { field: FieldName },
    /// A well-formed document followed by leftover bytes.
    TrailingData { offset: usize },
}

/// Failure parsing a `host[:port]` address.
#[derive(Clone, Copy, Debug, PartialEq, Eq, Structural)]
pub enum AddressError {
    /// A colon is present but the suffix is not a decimal integer in 0..=65535.
    InvalidPort,
    /// The host portion is empty.
    EmptyHost,
}

/// Violation of the Server List Ping wire protocol.
#[derive(Clone, Copy, Debug, PartialEq, Eq, Structural)]
pub enum ProtocolError {
    /// A VarInt that is truncated, overlong, or exceeds 32 bits.
    BadVarInt { offset: usize },
    /// A frame whose declared length exceeds the protocol maximum.
    OversizedFrame { length: u32 },
    /// A frame whose body is shorter than its own packet id requires.
    BadFrame { offset: usize },
    /// A packet id other than the one the current phase expects.
    UnexpectedPacket { expected: u32, found: u32 },
    /// The status payload is not a well-formed JSON document.
    BadStatusJson,
    /// The status document lacks `players.online` or `players.max`,
    /// or a sampled player lacks a `name`.
    MissingStatusField,
    /// A session event arriving in a phase that cannot accept it.
    WrongState,
}

/// The top-level taxonomy of one status query.
#[derive(Clone, Copy, Debug, PartialEq, Eq, Structural)]
pub enum QueryError {
    Decode(DecodeError),
    Address(AddressError),
    Connect,
    Protocol(ProtocolError),
    Timeout,
    Cancelled,
}

} // verus!
