//! Client-side logic for querying the status of a Minecraft Java Edition
//! server: decoding the binary server-list (NBT) file, parsing `host[:port]`
//! addresses, framing and parsing Server List Ping packets, reducing the
//! status JSON document, and driving the protocol state machine.
//!
//! All functions here are pure byte-level logic; the TCP, terminal and
//! filesystem glue lives outside the library.

pub mod address;
pub mod bytes;
pub mod errors;
pub mod nbt;
pub mod packet;
pub mod platform;
pub mod render;
pub mod session;
pub mod status;
pub mod varint;
