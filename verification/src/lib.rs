//! Client and server logic of the NetworkTables key/value protocol.
//!
//! NetworkTables keeps a directory of named, typed values in step between a server and its
//! clients. This crate holds what the protocol decides, proved against its contracts; it
//! opens no socket and runs no task.
//!
//! Revision 3 of the protocol:
//! - `leb128`, `wire`, `types`, `packets`, `codec`: the thirteen messages and their layout in
//!   bytes. What is written is read back unchanged, and a buffer that ends inside a message
//!   is left as it is.
//! - `truncation`: why a buffer that ends inside a message asks for more, whatever the
//!   message.
//! - `entry`, `directory`: the entries by id and by name, sequence numbers on a circle of
//!   16 bits, the persistent flag, the ids that a server gives out.
//! - `client`, `server`: the two state machines. A step takes a message or a request of the
//!   user and returns the actions to carry out: what to send to whom, which callbacks to run.
//! - `sync`: why a client that took a server's handshake holds the server's entries.
//! - `rpc`: the bodies of calls and responses.
//! - `callback`: who is told of what, in the order of registration.
//! - `ws`: which WebSocket peers are accepted.
//!
//! Revision 4, on the side of the server:
//! - `bin`: value updates in MessagePack.
//! - `text`, `topic`: the kinds of data and messages, and topics.
//! - `backend`, `connected`: what a server keeps for its topics and for each client, and how
//!   updates are cut into frames.
//! - `nt4`: the state machine of the server. A step takes a request of a client or of the
//!   server itself and returns what goes to whom: announcements, values, and the words for
//!   the server's own observers.

pub mod backend;
pub mod bin;
pub mod callback;
pub mod client;
pub mod codec;
pub mod connected;
pub mod directory;
pub mod entry;
pub mod error;
pub mod leb128;
pub mod nt4;
pub mod packets;
pub mod rpc;
pub mod server;
pub mod sync;
pub mod text;
pub mod topic;
pub mod truncation;
pub mod types;
pub mod wire;
pub mod ws;
