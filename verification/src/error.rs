//! Error kinds shared by the codec, the directory and the connection state machines.

use vstd::prelude::*;

verus! {

/// Why a frame cannot be a NetworkTables message, however many bytes follow.
#[derive(Clone, Copy, Debug, PartialEq, Eq, Structural)]
pub enum FrameError {
    /// The first byte of the frame is not the tag of any message.
    UnknownPacket(u8),
    /// The byte in front of a value is not the tag of any entry type.
    UnknownEntryType(u8),
    /// A client hello names a protocol revision that is neither 2.0 nor 3.0.
    UnknownVersion(u16),
    /// The bytes of a string are not UTF-8.
    InvalidUtf8,
    /// A length prefix does not fit in 64 bits.
    LengthOverflow,
    /// An RPC definition has a version byte other than 0 or 1.
    InvalidRpcVersion(u8),
    /// An RPC definition ends before its declared contents, or holds bytes after them.
    InvalidRpcDefinition,
}

/// Why reading a value from a buffer stopped without a value.
#[derive(Clone, Copy, Debug, PartialEq, Eq, Structural)]
pub enum ReadError {
    /// The buffer ends inside the value; more bytes may complete it.
    NeedMoreData,
    /// The bytes present already rule out a well-formed value.
    MalformedFrame(FrameError),
}

/// The failures that the state machines and the facade report.
#[derive(Clone, Copy, Debug, PartialEq, Eq, Structural)]
pub enum Error {
    /// The server rejected the protocol revision that the client offered.
    UnsupportedVersion { supported: u16 },
    /// The connection could not be established.
    ConnectionAborted,
    /// The transport failed in the middle of a session.
    BrokenPipe,
    /// The peer sent bytes that are no message.
    MalformedFrame { reason: FrameError },
    /// The payload of a version 1 RPC does not fit its definition.
    MalformedRpc,
    /// Every id is taken: of the 65535 entry ids, or of the 65536 ids for calls in flight.
    Exhausted,
}

/// An executable read result `res` says what the model `model` says: the same value at the same
/// position, or the same error.
pub open spec fn agrees<T: View>(
    res: Result<(T, usize), ReadError>,
    model: Result<(T::V, int), ReadError>,
) -> bool {
    match (res, model) {
        (Ok((v, p)), Ok((m, q))) => v@ == m && p as int == q,
        (Err(e), Err(f)) => e == f,
        _ => false,
    }
}

} // verus!
