//! Core definitions of the transport layer: byte order, the transport error
//! taxonomy, and the protocol direction/state machine.

use vstd::prelude::*;

pub mod buffer;
pub mod connection;
pub mod framing;
pub mod memory;
pub mod protocol;

verus! {

/// Endianness used when a multi-byte integer is put on the wire.
#[derive(Eq, PartialEq, Clone, Copy, Debug, Structural)]
pub enum ByteOrder {
    BigEndian,
    LittleEndian,
}

/// Relies on `u16::to_ne_bytes`: the two bytes of `1u16` in the machine's
/// native order, which is `[1, 0]` on a little-endian machine and `[0, 1]`
/// on a big-endian one.
#[verifier::external_body]
fn native_one_u16_bytes() -> (r: Vec<u8>)
    ensures
        r@.len() == 2,
        (r@[0] == 1u8 && r@[1] == 0u8) || (r@[0] == 0u8 && r@[1] == 1u8),
{
    1u16.to_ne_bytes().to_vec()
}

impl ByteOrder {
    /// The byte order the machine itself uses. Which variant comes back
    /// depends on the machine, so nothing more can be promised of the result.
    pub fn system_order() -> ByteOrder {
        let probe = native_one_u16_bytes();
        if probe[0] == 1 {
            ByteOrder::LittleEndian
        } else {
            ByteOrder::BigEndian
        }
    }
}

/// Everything a buffer, pipeline or connection operation can fail with.
#[derive(Eq, PartialEq, Clone, Debug)]
pub enum Error {
    /// A read asked for bytes past the end of the buffer: the first field is
    /// the cursor at which the failing byte read stood — for a multi-byte
    /// read, the end of the data — the second the number of bytes the
    /// buffer holds.
    OutOfBounds(usize, usize),
    /// A write was attempted on a resource whose writable flag is off; the
    /// field names the resource.
    NotWritable(String),
    /// A transport read failed, timed out or produced nothing; the field
    /// carries the reason.
    NotReadable(String),
    /// A decoded packet id is not part of the active protocol version: the
    /// fields carry the id and the version's literal name.
    IllegalPacket(i32, String),
    /// Catch-all for serialization-adjacent failures.
    Other(String),
    /// An underlying transport error, carried as its message.
    IoError(String),
}

/// The fixed traffic direction a connection is constructed for.
#[derive(Debug, Clone, Copy, PartialEq, Eq, Structural)]
pub enum PacketDirection {
    Clientbound,
    Serverbound,
}

/// The protocol phase a connection is currently in.
#[derive(Debug, Clone, Copy, PartialEq, Eq, Structural)]
pub enum PacketState {
    Handshaking,
    Login,
    Status,
    Play,
}

/// A supported protocol revision: a numeric id and a human-readable literal.
pub trait ProtocolVersion {
    fn id() -> i32;

    fn literal() -> &'static str;
}

} // verus!
