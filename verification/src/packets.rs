//! The messages of the protocol and their layout on the wire.
//!
//! Every message starts with a one-byte tag. `serialize` writes a message with its tag;
//! `deserialize` reads what follows the tag.

use crate::error::{agrees, FrameError, ReadError};
use crate::types::{
    lemma_parse_entry_type, lemma_parse_value, lemma_value_bounds, parse_entry_type, parse_value, text_fits,
    value_bytes, EntryType, EntryValue, ValueModel,
};
use crate::wire::{
    blob_bytes, holds_at, lemma_blob_bounds, lemma_holds_at_split, lemma_string_bounds, lemma_parse_blob, lemma_parse_string,
    lemma_parse_u16, lemma_parse_u32, lemma_parse_u8, parse_blob, parse_string, parse_u16,
    parse_u32, parse_u8, put_blob, put_string, put_u16, put_u32, put_u8, read_blob, read_string,
    read_u16, read_u32, read_u8, string_bytes, u16_bytes, u32_bytes,
};
use vstd::prelude::*;

verus! {

/// The number that a valid clear directive carries.
pub const CLEAR_ALL_MAGIC: u32 = 0xD06C_B27A;

/// The id that asks the server to assign one.
pub const UNASSIGNED_ID: u16 = 0xFFFF;

/// A revision of the protocol.
#[derive(Clone, Copy, Debug, PartialEq, Eq, Structural)]
pub enum NTVersion {
    V2,
    V3,
}

impl NTVersion {
    /// The number of the revision: `0x0200` or `0x0300`.
    pub open spec fn number(self) -> u16 {
        match self {
            NTVersion::V2 => 0x0200,
            NTVersion::V3 => 0x0300,
        }
    }

    /// The revision with the number `v`, if there is one.
    pub open spec fn of_u16(v: u16) -> Option<NTVersion> {
        if v == 0x0200 {
            Some(NTVersion::V2)
        } else if v == 0x0300 {
            Some(NTVersion::V3)
        } else {
            None
        }
    }

    pub fn to_u16(self) -> (v: u16)
        ensures
            v == self.number(),
            Self::of_u16(v) == Some(self),
    {
        match self {
            NTVersion::V2 => 0x0200,
            NTVersion::V3 => 0x0300,
        }
    }

    pub fn from_u16(v: u16) -> (res: Result<NTVersion, FrameError>)
        ensures
            match Self::of_u16(v) {
                Some(version) => res == Ok::<NTVersion, FrameError>(version),
                None => res == Err::<NTVersion, FrameError>(FrameError::UnknownVersion(v)),
            },
    {
        match v {
            0x0200 => Ok(NTVersion::V2),
            0x0300 => Ok(NTVersion::V3),
            _ => Err(FrameError::UnknownVersion(v)),
        }
    }
}

/// What a message is, as mathematics.
pub enum PacketModel {
    KeepAlive,
    ClientHello { version: NTVersion, name: Seq<char> },
    ProtocolVersionUnsupported { supported_version: u16 },
    ServerHelloComplete,
    ServerHello { flags: u8, name: Seq<char> },
    ClientHelloComplete,
    EntryAssignment {
        entry_name: Seq<char>,
        entry_type: EntryType,
        entry_id: u16,
        entry_seqnum: u16,
        entry_flags: u8,
        entry_value: ValueModel,
    },
    EntryUpdate { entry_id: u16, entry_seqnum: u16, entry_type: EntryType, entry_value: ValueModel },
    EntryFlagsUpdate { entry_id: u16, entry_flags: u8 },
    EntryDelete { entry_id: u16 },
    ClearAllEntries { magic: u32 },
    RpcExecute { entry_id: u16, unique_id: u16, parameter: Seq<u8> },
    RpcResponse { entry_id: u16, unique_id: u16, result: Seq<u8> },
}

impl PacketModel {
    /// The byte that a message of this kind starts with.
    pub open spec fn tag(self) -> u8 {
        match self {
            PacketModel::KeepAlive => 0x00,
            PacketModel::ClientHello { .. } => 0x01,
            PacketModel::ProtocolVersionUnsupported { .. } => 0x02,
            PacketModel::ServerHelloComplete => 0x03,
            PacketModel::ServerHello { .. } => 0x04,
            PacketModel::ClientHelloComplete => 0x05,
            PacketModel::EntryAssignment { .. } => 0x10,
            PacketModel::EntryUpdate { .. } => 0x11,
            PacketModel::EntryFlagsUpdate { .. } => 0x12,
            PacketModel::EntryDelete { .. } => 0x13,
            PacketModel::ClearAllEntries { .. } => 0x14,
            PacketModel::RpcExecute { .. } => 0x20,
            PacketModel::RpcResponse { .. } => 0x21,
        }
    }

    /// The message can stand on the wire and be read back: its lengths fit their prefixes, and
    /// the type it names is the type of the value it carries.
    pub open spec fn wf(self) -> bool {
        match self {
            PacketModel::ClientHello { version, name } => text_fits(name),
            PacketModel::ServerHello { flags, name } => text_fits(name),
            PacketModel::EntryAssignment {
                entry_name,
                entry_type,
                entry_id,
                entry_seqnum,
                entry_flags,
                entry_value,
            } => text_fits(entry_name) && entry_value.wf() && entry_value.entry_type()
                == entry_type,
            PacketModel::EntryUpdate { entry_id, entry_seqnum, entry_type, entry_value } =>
                entry_value.wf() && entry_value.entry_type() == entry_type,
            PacketModel::RpcExecute { entry_id, unique_id, parameter } => parameter.len()
                <= u64::MAX,
            PacketModel::RpcResponse { entry_id, unique_id, result } => result.len() <= u64::MAX,
            _ => true,
        }
    }
}

/// What follows the tag of a message.
pub open spec fn payload_bytes(m: PacketModel) -> Seq<u8> {
    match m {
        PacketModel::KeepAlive => Seq::empty(),
        PacketModel::ClientHello { version, name } => u16_bytes(version.number()) + string_bytes(
            name,
        ),
        PacketModel::ProtocolVersionUnsupported { supported_version } => u16_bytes(
            supported_version,
        ),
        PacketModel::ServerHelloComplete => Seq::empty(),
        PacketModel::ServerHello { flags, name } => seq![flags] + string_bytes(name),
        PacketModel::ClientHelloComplete => Seq::empty(),
        PacketModel::EntryAssignment {
            entry_name,
            entry_type,
            entry_id,
            entry_seqnum,
            entry_flags,
            entry_value,
        } => string_bytes(entry_name) + seq![entry_type.tag()] + u16_bytes(entry_id) + u16_bytes(
            entry_seqnum,
        ) + seq![entry_flags] + value_bytes(entry_value),
        PacketModel::EntryUpdate { entry_id, entry_seqnum, entry_type, entry_value } => u16_bytes(
            entry_id,
        ) + u16_bytes(entry_seqnum) + seq![entry_type.tag()] + value_bytes(entry_value),
        PacketModel::EntryFlagsUpdate { entry_id, entry_flags } => u16_bytes(entry_id) + seq![
            entry_flags,
        ],
        PacketModel::EntryDelete { entry_id } => u16_bytes(entry_id),
        PacketModel::ClearAllEntries { magic } => u32_bytes(magic),
        PacketModel::RpcExecute { entry_id, unique_id, parameter } => u16_bytes(entry_id)
            + u16_bytes(unique_id) + blob_bytes(parameter),
        PacketModel::RpcResponse { entry_id, unique_id, result } => u16_bytes(entry_id)
            + u16_bytes(unique_id) + blob_bytes(result),
    }
}

/// A message on the wire: its tag, then its fields in the order of the protocol's table.
pub open spec fn packet_bytes(m: PacketModel) -> Seq<u8> {
    seq![m.tag()] + payload_bytes(m)
}

pub open spec fn parse_client_hello(s: Seq<u8>, pos: int) -> Result<(PacketModel, int), ReadError> {
    match parse_u16(s, pos) {
        Ok((v, p1)) => match NTVersion::of_u16(v) {
            Some(version) => match parse_string(s, p1) {
                Ok((name, p2)) => Ok((PacketModel::ClientHello { version, name }, p2)),
                Err(e) => Err(e),
            },
            None => Err(ReadError::MalformedFrame(FrameError::UnknownVersion(v))),
        },
        Err(e) => Err(e),
    }
}

pub open spec fn parse_protocol_version_unsupported(s: Seq<u8>, pos: int) -> Result<
    (PacketModel, int),
    ReadError,
> {
    match parse_u16(s, pos) {
        Ok((supported_version, p)) => Ok(
            (PacketModel::ProtocolVersionUnsupported { supported_version }, p),
        ),
        Err(e) => Err(e),
    }
}

pub open spec fn parse_server_hello(s: Seq<u8>, pos: int) -> Result<(PacketModel, int), ReadError> {
    match parse_u8(s, pos) {
        Ok((flags, p1)) => match parse_string(s, p1) {
            Ok((name, p2)) => Ok((PacketModel::ServerHello { flags, name }, p2)),
            Err(e) => Err(e),
        },
        Err(e) => Err(e),
    }
}

pub open spec fn parse_entry_assignment(s: Seq<u8>, pos: int) -> Result<
    (PacketModel, int),
    ReadError,
> {
    match parse_string(s, pos) {
        Ok((entry_name, p1)) => match parse_entry_type(s, p1) {
            Ok((entry_type, p2)) => match parse_u16(s, p2) {
                Ok((entry_id, p3)) => match parse_u16(s, p3) {
                    Ok((entry_seqnum, p4)) => match parse_u8(s, p4) {
                        Ok((entry_flags, p5)) => match parse_value(entry_type, s, p5) {
                            Ok((entry_value, p6)) => Ok(
                                (
                                    PacketModel::EntryAssignment {
                                        entry_name,
                                        entry_type,
                                        entry_id,
                                        entry_seqnum,
                                        entry_flags,
                                        entry_value,
                                    },
                                    p6,
                                ),
                            ),
                            Err(e) => Err(e),
                        },
                        Err(e) => Err(e),
                    },
                    Err(e) => Err(e),
                },
                Err(e) => Err(e),
            },
            Err(e) => Err(e),
        },
        Err(e) => Err(e),
    }
}

pub open spec fn parse_entry_update(s: Seq<u8>, pos: int) -> Result<(PacketModel, int), ReadError> {
    match parse_u16(s, pos) {
        Ok((entry_id, p1)) => match parse_u16(s, p1) {
            Ok((entry_seqnum, p2)) => match parse_entry_type(s, p2) {
                Ok((entry_type, p3)) => match parse_value(entry_type, s, p3) {
                    Ok((entry_value, p4)) => Ok(
                        (
                            PacketModel::EntryUpdate {
                                entry_id,
                                entry_seqnum,
                                entry_type,
                                entry_value,
                            },
                            p4,
                        ),
                    ),
                    Err(e) => Err(e),
                },
                Err(e) => Err(e),
            },
            Err(e) => Err(e),
        },
        Err(e) => Err(e),
    }
}

pub open spec fn parse_entry_flags_update(s: Seq<u8>, pos: int) -> Result<
    (PacketModel, int),
    ReadError,
> {
    match parse_u16(s, pos) {
        Ok((entry_id, p1)) => match parse_u8(s, p1) {
            Ok((entry_flags, p2)) => Ok(
                (PacketModel::EntryFlagsUpdate { entry_id, entry_flags }, p2),
            ),
            Err(e) => Err(e),
        },
        Err(e) => Err(e),
    }
}

pub open spec fn parse_entry_delete(s: Seq<u8>, pos: int) -> Result<(PacketModel, int), ReadError> {
    match parse_u16(s, pos) {
        Ok((entry_id, p)) => Ok((PacketModel::EntryDelete { entry_id }, p)),
        Err(e) => Err(e),
    }
}

pub open spec fn parse_clear_all_entries(s: Seq<u8>, pos: int) -> Result<
    (PacketModel, int),
    ReadError,
> {
    match parse_u32(s, pos) {
        Ok((magic, p)) => Ok((PacketModel::ClearAllEntries { magic }, p)),
        Err(e) => Err(e),
    }
}

pub open spec fn parse_rpc_execute(s: Seq<u8>, pos: int) -> Result<(PacketModel, int), ReadError> {
    match parse_u16(s, pos) {
        Ok((entry_id, p1)) => match parse_u16(s, p1) {
            Ok((unique_id, p2)) => match parse_blob(s, p2) {
                Ok((parameter, p3)) => Ok(
                    (PacketModel::RpcExecute { entry_id, unique_id, parameter }, p3),
                ),
                Err(e) => Err(e),
            },
            Err(e) => Err(e),
        },
        Err(e) => Err(e),
    }
}

pub open spec fn parse_rpc_response(s: Seq<u8>, pos: int) -> Result<(PacketModel, int), ReadError> {
    match parse_u16(s, pos) {
        Ok((entry_id, p1)) => match parse_u16(s, p1) {
            Ok((unique_id, p2)) => match parse_blob(s, p2) {
                Ok((result, p3)) => Ok(
                    (PacketModel::RpcResponse { entry_id, unique_id, result }, p3),
                ),
                Err(e) => Err(e),
            },
            Err(e) => Err(e),
        },
        Err(e) => Err(e),
    }
}

/// What follows the tag `tag` at `pos`.
pub open spec fn parse_payload(tag: u8, s: Seq<u8>, pos: int) -> Result<
    (PacketModel, int),
    ReadError,
> {
    if tag == 0x00 {
        Ok((PacketModel::KeepAlive, pos))
    } else if tag == 0x01 {
        parse_client_hello(s, pos)
    } else if tag == 0x02 {
        parse_protocol_version_unsupported(s, pos)
    } else if tag == 0x03 {
        Ok((PacketModel::ServerHelloComplete, pos))
    } else if tag == 0x04 {
        parse_server_hello(s, pos)
    } else if tag == 0x05 {
        Ok((PacketModel::ClientHelloComplete, pos))
    } else if tag == 0x10 {
        parse_entry_assignment(s, pos)
    } else if tag == 0x11 {
        parse_entry_update(s, pos)
    } else if tag == 0x12 {
        parse_entry_flags_update(s, pos)
    } else if tag == 0x13 {
        parse_entry_delete(s, pos)
    } else if tag == 0x14 {
        parse_clear_all_entries(s, pos)
    } else if tag == 0x20 {
        parse_rpc_execute(s, pos)
    } else if tag == 0x21 {
        parse_rpc_response(s, pos)
    } else {
        Err(ReadError::MalformedFrame(FrameError::UnknownPacket(tag)))
    }
}

/// What a reader finds at `pos`: a message and the position behind it; that the buffer ends
/// inside the message; or that no message starts like this.
pub open spec fn parse_packet(s: Seq<u8>, pos: int) -> Result<(PacketModel, int), ReadError> {
    match parse_u8(s, pos) {
        Ok((tag, p)) => parse_payload(tag, s, p),
        Err(e) => Err(e),
    }
}

proof fn lemma_client_hello(s: Seq<u8>, p: int, m: PacketModel)
    requires
        m is ClientHello,
        m.wf(),
        holds_at(s, p, payload_bytes(m)),
    ensures
        parse_client_hello(s, p) == Ok::<(PacketModel, int), ReadError>((m, p + payload_bytes(m).len())),
{
    let version = m->ClientHello_version;
    let name = m->ClientHello_name;
    lemma_holds_at_split(s, p, u16_bytes(version.number()), string_bytes(name));
    lemma_parse_u16(s, p, version.number());
    lemma_parse_string(s, p + 2, name);
}

proof fn lemma_server_hello(s: Seq<u8>, p: int, m: PacketModel)
    requires
        m is ServerHello,
        m.wf(),
        holds_at(s, p, payload_bytes(m)),
    ensures
        parse_server_hello(s, p) == Ok::<(PacketModel, int), ReadError>((m, p + payload_bytes(m).len())),
{
    let flags = m->ServerHello_flags;
    let name = m->ServerHello_name;
    lemma_holds_at_split(s, p, seq![flags], string_bytes(name));
    lemma_parse_u8(s, p, flags);
    lemma_parse_string(s, p + 1, name);
}

#[verifier::rlimit(50)]
proof fn lemma_entry_assignment(s: Seq<u8>, p: int, m: PacketModel)
    requires
        m is EntryAssignment,
        m.wf(),
        holds_at(s, p, payload_bytes(m)),
    ensures
        parse_entry_assignment(s, p) == Ok::<(PacketModel, int), ReadError>((m, p + payload_bytes(m).len())),
{
    let a0 = string_bytes(m->EntryAssignment_entry_name);
    let a1 = seq![m->EntryAssignment_entry_type.tag()];
    let a2 = u16_bytes(m->EntryAssignment_entry_id);
    let a3 = u16_bytes(m->EntryAssignment_entry_seqnum);
    let a4 = seq![m->EntryAssignment_entry_flags];
    let a5 = value_bytes(m->EntryAssignment_entry_value);
    lemma_holds_at_split(s, p, a0 + a1 + a2 + a3 + a4, a5);
    lemma_holds_at_split(s, p, a0 + a1 + a2 + a3, a4);
    lemma_holds_at_split(s, p, a0 + a1 + a2, a3);
    lemma_holds_at_split(s, p, a0 + a1, a2);
    lemma_holds_at_split(s, p, a0, a1);
    lemma_parse_string(s, p, m->EntryAssignment_entry_name);
    let p1: int = p + a0.len() as int;
    lemma_parse_entry_type(s, p1, m->EntryAssignment_entry_type);
    lemma_parse_u16(s, p1 + 1, m->EntryAssignment_entry_id);
    lemma_parse_u16(s, p1 + 3, m->EntryAssignment_entry_seqnum);
    lemma_parse_u8(s, p1 + 5, m->EntryAssignment_entry_flags);
    lemma_parse_value(s, p1 + 6, m->EntryAssignment_entry_value);
}

proof fn lemma_entry_update(s: Seq<u8>, p: int, m: PacketModel)
    requires
        m is EntryUpdate,
        m.wf(),
        holds_at(s, p, payload_bytes(m)),
    ensures
        parse_entry_update(s, p) == Ok::<(PacketModel, int), ReadError>((m, p + payload_bytes(m).len())),
{
    let a0 = u16_bytes(m->EntryUpdate_entry_id);
    let a1 = u16_bytes(m->EntryUpdate_entry_seqnum);
    let a2 = seq![m->EntryUpdate_entry_type.tag()];
    let a3 = value_bytes(m->EntryUpdate_entry_value);
    lemma_holds_at_split(s, p, a0 + a1 + a2, a3);
    lemma_holds_at_split(s, p, a0 + a1, a2);
    lemma_holds_at_split(s, p, a0, a1);
    lemma_parse_u16(s, p, m->EntryUpdate_entry_id);
    lemma_parse_u16(s, p + 2, m->EntryUpdate_entry_seqnum);
    lemma_parse_entry_type(s, p + 4, m->EntryUpdate_entry_type);
    lemma_parse_value(s, p + 5, m->EntryUpdate_entry_value);
}

proof fn lemma_entry_flags_update(s: Seq<u8>, p: int, m: PacketModel)
    requires
        m is EntryFlagsUpdate,
        m.wf(),
        holds_at(s, p, payload_bytes(m)),
    ensures
        parse_entry_flags_update(s, p) == Ok::<(PacketModel, int), ReadError>((m, p + payload_bytes(m).len())),
{
    lemma_holds_at_split(
        s,
        p,
        u16_bytes(m->EntryFlagsUpdate_entry_id),
        seq![m->EntryFlagsUpdate_entry_flags],
    );
    lemma_parse_u16(s, p, m->EntryFlagsUpdate_entry_id);
    lemma_parse_u8(s, p + 2, m->EntryFlagsUpdate_entry_flags);
}

proof fn lemma_rpc_execute(s: Seq<u8>, p: int, m: PacketModel)
    requires
        m is RpcExecute,
        m.wf(),
        holds_at(s, p, payload_bytes(m)),
    ensures
        parse_rpc_execute(s, p) == Ok::<(PacketModel, int), ReadError>((m, p + payload_bytes(m).len())),
{
    let a0 = u16_bytes(m->RpcExecute_entry_id);
    let a1 = u16_bytes(m->RpcExecute_unique_id);
    lemma_holds_at_split(s, p, a0 + a1, blob_bytes(m->parameter));
    lemma_holds_at_split(s, p, a0, a1);
    lemma_parse_u16(s, p, m->RpcExecute_entry_id);
    lemma_parse_u16(s, p + 2, m->RpcExecute_unique_id);
    lemma_parse_blob(s, p + 4, m->parameter);
}

proof fn lemma_rpc_response(s: Seq<u8>, p: int, m: PacketModel)
    requires
        m is RpcResponse,
        m.wf(),
        holds_at(s, p, payload_bytes(m)),
    ensures
        parse_rpc_response(s, p) == Ok::<(PacketModel, int), ReadError>((m, p + payload_bytes(m).len())),
{
    let a0 = u16_bytes(m->RpcResponse_entry_id);
    let a1 = u16_bytes(m->RpcResponse_unique_id);
    lemma_holds_at_split(s, p, a0 + a1, blob_bytes(m->result));
    lemma_holds_at_split(s, p, a0, a1);
    lemma_parse_u16(s, p, m->RpcResponse_entry_id);
    lemma_parse_u16(s, p + 2, m->RpcResponse_unique_id);
    lemma_parse_blob(s, p + 4, m->result);
}

proof fn lemma_payload_client_hello(s: Seq<u8>, p: int, m: PacketModel)
    requires
        m is ClientHello,
        m.wf(),
        holds_at(s, p, payload_bytes(m)),
    ensures
        parse_payload(0x01, s, p) == Ok::<(PacketModel, int), ReadError>(
            (m, p + payload_bytes(m).len()),
        ),
{
    lemma_client_hello(s, p, m);
}

proof fn lemma_payload_unsupported(s: Seq<u8>, p: int, m: PacketModel)
    requires
        m is ProtocolVersionUnsupported,
        m.wf(),
        holds_at(s, p, payload_bytes(m)),
    ensures
        parse_payload(0x02, s, p) == Ok::<(PacketModel, int), ReadError>(
            (m, p + payload_bytes(m).len()),
        ),
{
    lemma_parse_u16(s, p, m->supported_version);
}

proof fn lemma_payload_server_hello(s: Seq<u8>, p: int, m: PacketModel)
    requires
        m is ServerHello,
        m.wf(),
        holds_at(s, p, payload_bytes(m)),
    ensures
        parse_payload(0x04, s, p) == Ok::<(PacketModel, int), ReadError>(
            (m, p + payload_bytes(m).len()),
        ),
{
    lemma_server_hello(s, p, m);
}

proof fn lemma_payload_assignment(s: Seq<u8>, p: int, m: PacketModel)
    requires
        m is EntryAssignment,
        m.wf(),
        holds_at(s, p, payload_bytes(m)),
    ensures
        parse_payload(0x10, s, p) == Ok::<(PacketModel, int), ReadError>(
            (m, p + payload_bytes(m).len()),
        ),
{
    lemma_entry_assignment(s, p, m);
}

proof fn lemma_payload_update(s: Seq<u8>, p: int, m: PacketModel)
    requires
        m is EntryUpdate,
        m.wf(),
        holds_at(s, p, payload_bytes(m)),
    ensures
        parse_payload(0x11, s, p) == Ok::<(PacketModel, int), ReadError>(
            (m, p + payload_bytes(m).len()),
        ),
{
    lemma_entry_update(s, p, m);
}

proof fn lemma_payload_flags(s: Seq<u8>, p: int, m: PacketModel)
    requires
        m is EntryFlagsUpdate,
        m.wf(),
        holds_at(s, p, payload_bytes(m)),
    ensures
        parse_payload(0x12, s, p) == Ok::<(PacketModel, int), ReadError>(
            (m, p + payload_bytes(m).len()),
        ),
{
    lemma_entry_flags_update(s, p, m);
}

proof fn lemma_payload_delete(s: Seq<u8>, p: int, m: PacketModel)
    requires
        m is EntryDelete,
        m.wf(),
        holds_at(s, p, payload_bytes(m)),
    ensures
        parse_payload(0x13, s, p) == Ok::<(PacketModel, int), ReadError>(
            (m, p + payload_bytes(m).len()),
        ),
{
    lemma_parse_u16(s, p, m->EntryDelete_entry_id);
}

proof fn lemma_payload_clear(s: Seq<u8>, p: int, m: PacketModel)
    requires
        m is ClearAllEntries,
        m.wf(),
        holds_at(s, p, payload_bytes(m)),
    ensures
        parse_payload(0x14, s, p) == Ok::<(PacketModel, int), ReadError>(
            (m, p + payload_bytes(m).len()),
        ),
{
    lemma_parse_u32(s, p, m->magic);
}

proof fn lemma_payload_execute(s: Seq<u8>, p: int, m: PacketModel)
    requires
        m is RpcExecute,
        m.wf(),
        holds_at(s, p, payload_bytes(m)),
    ensures
        parse_payload(0x20, s, p) == Ok::<(PacketModel, int), ReadError>(
            (m, p + payload_bytes(m).len()),
        ),
{
    lemma_rpc_execute(s, p, m);
}

proof fn lemma_payload_response(s: Seq<u8>, p: int, m: PacketModel)
    requires
        m is RpcResponse,
        m.wf(),
        holds_at(s, p, payload_bytes(m)),
    ensures
        parse_payload(0x21, s, p) == Ok::<(PacketModel, int), ReadError>(
            (m, p + payload_bytes(m).len()),
        ),
{
    lemma_rpc_response(s, p, m);
}

#[verifier::rlimit(50)]
proof fn lemma_parse_payload(s: Seq<u8>, p: int, m: PacketModel)
    requires
        m.wf(),
        holds_at(s, p, payload_bytes(m)),
    ensures
        parse_payload(m.tag(), s, p) == Ok::<(PacketModel, int), ReadError>(
            (m, p + payload_bytes(m).len()),
        ),
{
    match m {
        PacketModel::KeepAlive => {
            assert(parse_payload(0x00, s, p) == Ok::<(PacketModel, int), ReadError>((m, p)));
        },
        PacketModel::ServerHelloComplete => {
            assert(parse_payload(0x03, s, p) == Ok::<(PacketModel, int), ReadError>((m, p)));
        },
        PacketModel::ClientHelloComplete => {
            assert(parse_payload(0x05, s, p) == Ok::<(PacketModel, int), ReadError>((m, p)));
        },
        PacketModel::ClientHello { .. } => lemma_payload_client_hello(s, p, m),
        PacketModel::ProtocolVersionUnsupported { .. } => lemma_payload_unsupported(s, p, m),
        PacketModel::ServerHello { .. } => lemma_payload_server_hello(s, p, m),
        PacketModel::EntryAssignment { .. } => lemma_payload_assignment(s, p, m),
        PacketModel::EntryUpdate { .. } => lemma_payload_update(s, p, m),
        PacketModel::EntryFlagsUpdate { .. } => lemma_payload_flags(s, p, m),
        PacketModel::EntryDelete { .. } => lemma_payload_delete(s, p, m),
        PacketModel::ClearAllEntries { .. } => lemma_payload_clear(s, p, m),
        PacketModel::RpcExecute { .. } => lemma_payload_execute(s, p, m),
        PacketModel::RpcResponse { .. } => lemma_payload_response(s, p, m),
    }
}

/// Reading a message where its bytes stand gives the message back.
pub proof fn lemma_parse_packet(s: Seq<u8>, pos: int, m: PacketModel)
    requires
        m.wf(),
        holds_at(s, pos, packet_bytes(m)),
    ensures
        parse_packet(s, pos) == Ok::<(PacketModel, int), ReadError>(
            (m, pos + packet_bytes(m).len()),
        ),
{
    lemma_holds_at_split(s, pos, seq![m.tag()], payload_bytes(m));
    lemma_parse_u8(s, pos, m.tag());
    lemma_parse_payload(s, pos + 1, m);
}

/// Encoding a message and decoding the bytes gives the message back, whatever follows it in
/// the buffer, and consumes exactly the bytes of the message.
pub proof fn lemma_decode_encode(m: PacketModel, rest: Seq<u8>)
    requires
        m.wf(),
    ensures
        parse_packet(packet_bytes(m) + rest, 0) == Ok::<(PacketModel, int), ReadError>(
            (m, packet_bytes(m).len() as int),
        ),
{
    let s = packet_bytes(m) + rest;
    assert(s.subrange(0, packet_bytes(m).len() as int) =~= packet_bytes(m));
    lemma_parse_packet(s, 0, m);
}

/// A message that was read ends inside the buffer, behind its start.
#[verifier::rlimit(50)]
pub proof fn lemma_packet_bounds(s: Seq<u8>, pos: int)
    ensures
        parse_packet(s, pos) matches Ok((m, p)) ==> 0 <= pos < p <= s.len(),
{
    match parse_u8(s, pos) {
        Ok((tag, p)) => {
            lemma_string_bounds(s, p);
            lemma_string_bounds(s, p + 2);
            lemma_string_bounds(s, p + 1);
            lemma_blob_bounds(s, p + 4);
            lemma_assignment_bounds(s, p);
            lemma_update_bounds(s, p);
        },
        Err(_) => {},
    }
}

proof fn lemma_assignment_bounds(s: Seq<u8>, pos: int)
    ensures
        parse_entry_assignment(s, pos) matches Ok((m, p)) ==> 0 <= pos < p <= s.len(),
{
    lemma_string_bounds(s, pos);
    match parse_string(s, pos) {
        Ok((name, p1)) => match parse_entry_type(s, p1) {
            Ok((ty, p2)) => {
                lemma_value_bounds(ty, s, p2 + 5);
            },
            Err(_) => {},
        },
        Err(_) => {},
    }
}

proof fn lemma_update_bounds(s: Seq<u8>, pos: int)
    ensures
        parse_entry_update(s, pos) matches Ok((m, p)) ==> 0 <= pos < p <= s.len(),
{
    match parse_entry_type(s, pos + 4) {
        Ok((ty, p)) => {
            lemma_value_bounds(ty, s, p);
        },
        Err(_) => {},
    }
}

/// Sent by a client to show that its connection is alive.
#[derive(Clone, Copy, Debug, PartialEq, Eq, Structural)]
pub struct KeepAlive;

/// Sent by a client when it has taken in the server's entries.
#[derive(Clone, Copy, Debug, PartialEq, Eq, Structural)]
pub struct ClientHelloComplete;

/// Sent by a server when it has sent all its entries.
#[derive(Clone, Copy, Debug, PartialEq, Eq, Structural)]
pub struct ServerHelloComplete;

/// The first message of a client: the revision it speaks and its name.
#[derive(Clone, Debug, PartialEq, Eq)]
pub struct ClientHello {
    pub version: NTVersion,
    pub name: String,
}

/// The server's answer to a client hello.
#[derive(Clone, Debug, PartialEq, Eq)]
pub struct ServerHello {
    pub flags: u8,
    pub name: String,
}

/// The server's answer to a client that speaks another revision.
#[derive(Clone, Copy, Debug, PartialEq, Eq, Structural)]
pub struct ProtocolVersionUnsupported {
    pub supported_version: u16,
}

/// Announces an entry, or asks the server to create one when the id is `UNASSIGNED_ID`.
#[derive(Clone, Debug, PartialEq, Eq)]
pub struct EntryAssignment {
    pub entry_name: String,
    pub entry_type: EntryType,
    pub entry_id: u16,
    pub entry_seqnum: u16,
    pub entry_flags: u8,
    pub entry_value: EntryValue,
}

/// Gives an entry a new value.
#[derive(Clone, Debug, PartialEq, Eq)]
pub struct EntryUpdate {
    pub entry_id: u16,
    pub entry_seqnum: u16,
    pub entry_type: EntryType,
    pub entry_value: EntryValue,
}

/// Gives an entry new flags.
#[derive(Clone, Copy, Debug, PartialEq, Eq, Structural)]
pub struct EntryFlagsUpdate {
    pub entry_id: u16,
    pub entry_flags: u8,
}

/// Removes an entry.
#[derive(Clone, Copy, Debug, PartialEq, Eq, Structural)]
pub struct EntryDelete {
    pub entry_id: u16,
}

/// Removes every entry that is not persistent, if it carries the magic number.
#[derive(Clone, Copy, Debug, PartialEq, Eq, Structural)]
pub struct ClearAllEntries {
    pub magic: u32,
}

/// The same directive under its older name.
pub type DeleteAllEntries = ClearAllEntries;

/// Asks the server to run a procedure.
#[derive(Clone, Debug, PartialEq, Eq)]
pub struct RpcExecute {
    pub entry_id: u16,
    pub unique_id: u16,
    pub parameter: Vec<u8>,
}

/// Carries the result of a procedure back to the caller.
#[derive(Clone, Debug, PartialEq, Eq)]
pub struct RpcResponse {
    pub entry_id: u16,
    pub unique_id: u16,
    pub result: Vec<u8>,
}

/// Any message of the protocol.
#[derive(Clone, Debug, PartialEq, Eq)]
pub enum ReceivedPacket {
    KeepAlive,
    ClientHello(ClientHello),
    ProtocolVersionUnsupported(ProtocolVersionUnsupported),
    ServerHelloComplete,
    ServerHello(ServerHello),
    ClientHelloComplete,
    EntryAssignment(EntryAssignment),
    EntryUpdate(EntryUpdate),
    EntryFlagsUpdate(EntryFlagsUpdate),
    EntryDelete(EntryDelete),
    ClearAllEntries(ClearAllEntries),
    RpcExecute(RpcExecute),
    RpcResponse(RpcResponse),
}

impl View for KeepAlive {
    type V = PacketModel;

    open spec fn view(&self) -> PacketModel {
        PacketModel::KeepAlive
    }
}

impl View for ClientHelloComplete {
    type V = PacketModel;

    open spec fn view(&self) -> PacketModel {
        PacketModel::ClientHelloComplete
    }
}

impl View for ServerHelloComplete {
    type V = PacketModel;

    open spec fn view(&self) -> PacketModel {
        PacketModel::ServerHelloComplete
    }
}

impl View for ClientHello {
    type V = PacketModel;

    open spec fn view(&self) -> PacketModel {
        PacketModel::ClientHello { version: self.version, name: self.name@ }
    }
}

impl View for ServerHello {
    type V = PacketModel;

    open spec fn view(&self) -> PacketModel {
        PacketModel::ServerHello { flags: self.flags, name: self.name@ }
    }
}

impl View for ProtocolVersionUnsupported {
    type V = PacketModel;

    open spec fn view(&self) -> PacketModel {
        PacketModel::ProtocolVersionUnsupported { supported_version: self.supported_version }
    }
}

impl View for EntryAssignment {
    type V = PacketModel;

    open spec fn view(&self) -> PacketModel {
        PacketModel::EntryAssignment {
            entry_name: self.entry_name@,
            entry_type: self.entry_type,
            entry_id: self.entry_id,
            entry_seqnum: self.entry_seqnum,
            entry_flags: self.entry_flags,
            entry_value: self.entry_value@,
        }
    }
}

impl View for EntryUpdate {
    type V = PacketModel;

    open spec fn view(&self) -> PacketModel {
        PacketModel::EntryUpdate {
            entry_id: self.entry_id,
            entry_seqnum: self.entry_seqnum,
            entry_type: self.entry_type,
            entry_value: self.entry_value@,
        }
    }
}

impl View for EntryFlagsUpdate {
    type V = PacketModel;

    open spec fn view(&self) -> PacketModel {
        PacketModel::EntryFlagsUpdate { entry_id: self.entry_id, entry_flags: self.entry_flags }
    }
}

impl View for EntryDelete {
    type V = PacketModel;

    open spec fn view(&self) -> PacketModel {
        PacketModel::EntryDelete { entry_id: self.entry_id }
    }
}

impl View for ClearAllEntries {
    type V = PacketModel;

    open spec fn view(&self) -> PacketModel {
        PacketModel::ClearAllEntries { magic: self.magic }
    }
}

impl View for RpcExecute {
    type V = PacketModel;

    open spec fn view(&self) -> PacketModel {
        PacketModel::RpcExecute {
            entry_id: self.entry_id,
            unique_id: self.unique_id,
            parameter: self.parameter@,
        }
    }
}

impl View for RpcResponse {
    type V = PacketModel;

    open spec fn view(&self) -> PacketModel {
        PacketModel::RpcResponse {
            entry_id: self.entry_id,
            unique_id: self.unique_id,
            result: self.result@,
        }
    }
}

impl View for ReceivedPacket {
    type V = PacketModel;

    open spec fn view(&self) -> PacketModel {
        match self {
            ReceivedPacket::KeepAlive => PacketModel::KeepAlive,
            ReceivedPacket::ClientHello(p) => p@,
            ReceivedPacket::ProtocolVersionUnsupported(p) => p@,
            ReceivedPacket::ServerHelloComplete => PacketModel::ServerHelloComplete,
            ReceivedPacket::ServerHello(p) => p@,
            ReceivedPacket::ClientHelloComplete => PacketModel::ClientHelloComplete,
            ReceivedPacket::EntryAssignment(p) => p@,
            ReceivedPacket::EntryUpdate(p) => p@,
            ReceivedPacket::EntryFlagsUpdate(p) => p@,
            ReceivedPacket::EntryDelete(p) => p@,
            ReceivedPacket::ClearAllEntries(p) => p@,
            ReceivedPacket::RpcExecute(p) => p@,
            ReceivedPacket::RpcResponse(p) => p@,
        }
    }
}

impl KeepAlive {
    pub fn serialize(&self, buf: &mut Vec<u8>)
        ensures
            final(buf)@ == old(buf)@ + packet_bytes(self@),
    {
        put_u8(buf, 0x00);
        assert(packet_bytes(self@) =~= seq![0x00u8]);
    }

    pub fn deserialize(buf: &[u8], pos: usize) -> (res: Result<(KeepAlive, usize), ReadError>)
        ensures
            res == Ok::<(KeepAlive, usize), ReadError>((KeepAlive, pos)),
    {
        Ok((KeepAlive, pos))
    }
}

impl ClientHelloComplete {
    pub fn serialize(&self, buf: &mut Vec<u8>)
        ensures
            final(buf)@ == old(buf)@ + packet_bytes(self@),
    {
        put_u8(buf, 0x05);
        assert(packet_bytes(self@) =~= seq![0x05u8]);
    }

    pub fn deserialize(buf: &[u8], pos: usize) -> (res: Result<
        (ClientHelloComplete, usize),
        ReadError,
    >)
        ensures
            res == Ok::<(ClientHelloComplete, usize), ReadError>((ClientHelloComplete, pos)),
    {
        Ok((ClientHelloComplete, pos))
    }
}

impl ServerHelloComplete {
    pub fn serialize(&self, buf: &mut Vec<u8>)
        ensures
            final(buf)@ == old(buf)@ + packet_bytes(self@),
    {
        put_u8(buf, 0x03);
        assert(packet_bytes(self@) =~= seq![0x03u8]);
    }

    pub fn deserialize(buf: &[u8], pos: usize) -> (res: Result<
        (ServerHelloComplete, usize),
        ReadError,
    >)
        ensures
            res == Ok::<(ServerHelloComplete, usize), ReadError>((ServerHelloComplete, pos)),
    {
        Ok((ServerHelloComplete, pos))
    }
}

impl ClientHello {
    /// A hello for revision 3.0; revision 2.0 is not spoken.
    pub fn new(version: NTVersion, name: String) -> (r: ClientHello)
        requires
            version != NTVersion::V2,
        ensures
            r.version == version,
            r.name == name,
    {
        ClientHello { version, name }
    }

    pub fn serialize(&self, buf: &mut Vec<u8>)
        ensures
            final(buf)@ == old(buf)@ + packet_bytes(self@),
    {
        let ghost start = buf@;
        put_u8(buf, 0x01);
        put_u16(buf, self.version.to_u16());
        put_string(buf, self.name.as_str());
        assert(buf@ =~= start + packet_bytes(self@));
    }

    pub fn deserialize(buf: &[u8], pos: usize) -> (res: Result<(ClientHello, usize), ReadError>)
        ensures
            agrees(res, parse_client_hello(buf@, pos as int)),
    {
        let (v, p1) = read_u16(buf, pos)?;
        let version = match NTVersion::from_u16(v) {
            Ok(version) => version,
            Err(f) => {
                return Err(ReadError::MalformedFrame(f));
            },
        };
        let (name, p2) = read_string(buf, p1)?;
        Ok((ClientHello { version, name }, p2))
    }
}

impl ServerHello {
    pub fn new(flags: u8, name: String) -> (r: ServerHello)
        ensures
            r.flags == flags,
            r.name == name,
    {
        ServerHello { flags, name }
    }

    pub fn serialize(&self, buf: &mut Vec<u8>)
        ensures
            final(buf)@ == old(buf)@ + packet_bytes(self@),
    {
        let ghost start = buf@;
        put_u8(buf, 0x04);
        put_u8(buf, self.flags);
        put_string(buf, self.name.as_str());
        assert(buf@ =~= start + packet_bytes(self@));
    }

    pub fn deserialize(buf: &[u8], pos: usize) -> (res: Result<(ServerHello, usize), ReadError>)
        ensures
            agrees(res, parse_server_hello(buf@, pos as int)),
    {
        let (flags, p1) = read_u8(buf, pos)?;
        let (name, p2) = read_string(buf, p1)?;
        Ok((ServerHello::new(flags, name), p2))
    }
}

impl ProtocolVersionUnsupported {
    pub fn new(supported_version: NTVersion) -> (r: ProtocolVersionUnsupported)
        ensures
            r.supported_version == supported_version.number(),
    {
        ProtocolVersionUnsupported { supported_version: supported_version.to_u16() }
    }

    pub fn serialize(&self, buf: &mut Vec<u8>)
        ensures
            final(buf)@ == old(buf)@ + packet_bytes(self@),
    {
        let ghost start = buf@;
        put_u8(buf, 0x02);
        put_u16(buf, self.supported_version);
        assert(buf@ =~= start + packet_bytes(self@));
    }

    pub fn deserialize(buf: &[u8], pos: usize) -> (res: Result<
        (ProtocolVersionUnsupported, usize),
        ReadError,
    >)
        ensures
            agrees(res, parse_protocol_version_unsupported(buf@, pos as int)),
    {
        let (supported_version, p) = read_u16(buf, pos)?;
        Ok((ProtocolVersionUnsupported { supported_version }, p))
    }
}

impl EntryAssignment {
    pub fn new(
        entry_name: String,
        entry_type: EntryType,
        entry_id: u16,
        entry_seqnum: u16,
        entry_flags: u8,
        entry_value: EntryValue,
    ) -> (r: EntryAssignment)
        ensures
            r.entry_name == entry_name,
            r.entry_type == entry_type,
            r.entry_id == entry_id,
            r.entry_seqnum == entry_seqnum,
            r.entry_flags == entry_flags,
            r.entry_value == entry_value,
    {
        EntryAssignment { entry_name, entry_type, entry_id, entry_seqnum, entry_flags, entry_value }
    }

    pub fn serialize(&self, buf: &mut Vec<u8>)
        requires
            self.entry_value.encodable(),
        ensures
            final(buf)@ == old(buf)@ + packet_bytes(self@),
    {
        let ghost start = buf@;
        put_u8(buf, 0x10);
        put_string(buf, self.entry_name.as_str());
        self.entry_type.serialize(buf);
        put_u16(buf, self.entry_id);
        put_u16(buf, self.entry_seqnum);
        put_u8(buf, self.entry_flags);
        self.entry_type.write_value(&self.entry_value, buf);
        assert(buf@ =~= start + packet_bytes(self@));
    }

    pub fn deserialize(buf: &[u8], pos: usize) -> (res: Result<
        (EntryAssignment, usize),
        ReadError,
    >)
        ensures
            agrees(res, parse_entry_assignment(buf@, pos as int)),
    {
        let (entry_name, p1) = read_string(buf, pos)?;
        let (entry_type, p2) = EntryType::deserialize(buf, p1)?;
        let (entry_id, p3) = read_u16(buf, p2)?;
        let (entry_seqnum, p4) = read_u16(buf, p3)?;
        let (entry_flags, p5) = read_u8(buf, p4)?;
        let (entry_value, p6) = entry_type.read_value(buf, p5)?;
        Ok(
            (
                EntryAssignment::new(
                    entry_name,
                    entry_type,
                    entry_id,
                    entry_seqnum,
                    entry_flags,
                    entry_value,
                ),
                p6,
            ),
        )
    }
}

impl EntryUpdate {
    pub fn new(entry_id: u16, entry_seqnum: u16, entry_type: EntryType, entry_value: EntryValue) -> (r:
        EntryUpdate)
        ensures
            r.entry_id == entry_id,
            r.entry_seqnum == entry_seqnum,
            r.entry_type == entry_type,
            r.entry_value == entry_value,
    {
        EntryUpdate { entry_id, entry_seqnum, entry_type, entry_value }
    }

    pub fn serialize(&self, buf: &mut Vec<u8>)
        requires
            self.entry_value.encodable(),
        ensures
            final(buf)@ == old(buf)@ + packet_bytes(self@),
    {
        let ghost start = buf@;
        put_u8(buf, 0x11);
        put_u16(buf, self.entry_id);
        put_u16(buf, self.entry_seqnum);
        self.entry_type.serialize(buf);
        self.entry_type.write_value(&self.entry_value, buf);
        assert(buf@ =~= start + packet_bytes(self@));
    }

    pub fn deserialize(buf: &[u8], pos: usize) -> (res: Result<(EntryUpdate, usize), ReadError>)
        ensures
            agrees(res, parse_entry_update(buf@, pos as int)),
    {
        let (entry_id, p1) = read_u16(buf, pos)?;
        let (entry_seqnum, p2) = read_u16(buf, p1)?;
        let (entry_type, p3) = EntryType::deserialize(buf, p2)?;
        let (entry_value, p4) = entry_type.read_value(buf, p3)?;
        Ok((EntryUpdate::new(entry_id, entry_seqnum, entry_type, entry_value), p4))
    }
}

impl EntryFlagsUpdate {
    pub fn new(entry_id: u16, entry_flags: u8) -> (r: EntryFlagsUpdate)
        ensures
            r == (EntryFlagsUpdate { entry_id, entry_flags }),
    {
        EntryFlagsUpdate { entry_id, entry_flags }
    }

    pub fn serialize(&self, buf: &mut Vec<u8>)
        ensures
            final(buf)@ == old(buf)@ + packet_bytes(self@),
    {
        let ghost start = buf@;
        put_u8(buf, 0x12);
        put_u16(buf, self.entry_id);
        put_u8(buf, self.entry_flags);
        assert(buf@ =~= start + packet_bytes(self@));
    }

    pub fn deserialize(buf: &[u8], pos: usize) -> (res: Result<
        (EntryFlagsUpdate, usize),
        ReadError,
    >)
        ensures
            agrees(res, parse_entry_flags_update(buf@, pos as int)),
    {
        let (entry_id, p1) = read_u16(buf, pos)?;
        let (entry_flags, p2) = read_u8(buf, p1)?;
        Ok((EntryFlagsUpdate { entry_id, entry_flags }, p2))
    }
}

impl EntryDelete {
    pub fn new(entry_id: u16) -> (r: EntryDelete)
        ensures
            r == (EntryDelete { entry_id }),
    {
        EntryDelete { entry_id }
    }

    pub fn serialize(&self, buf: &mut Vec<u8>)
        ensures
            final(buf)@ == old(buf)@ + packet_bytes(self@),
    {
        let ghost start = buf@;
        put_u8(buf, 0x13);
        put_u16(buf, self.entry_id);
        assert(buf@ =~= start + packet_bytes(self@));
    }

    pub fn deserialize(buf: &[u8], pos: usize) -> (res: Result<(EntryDelete, usize), ReadError>)
        ensures
            agrees(res, parse_entry_delete(buf@, pos as int)),
    {
        let (entry_id, p) = read_u16(buf, pos)?;
        Ok((EntryDelete { entry_id }, p))
    }
}

impl ClearAllEntries {
    /// A clear directive that will be honored.
    pub fn new() -> (r: ClearAllEntries)
        ensures
            r.magic == CLEAR_ALL_MAGIC,
    {
        ClearAllEntries { magic: CLEAR_ALL_MAGIC }
    }

    /// Whether the directive carries the magic number.
    pub fn is_valid(self) -> (b: bool)
        ensures
            b == (self.magic == CLEAR_ALL_MAGIC),
    {
        self.magic == CLEAR_ALL_MAGIC
    }

    pub fn serialize(&self, buf: &mut Vec<u8>)
        ensures
            final(buf)@ == old(buf)@ + packet_bytes(self@),
    {
        let ghost start = buf@;
        put_u8(buf, 0x14);
        put_u32(buf, self.magic);
        assert(buf@ =~= start + packet_bytes(self@));
    }

    pub fn deserialize(buf: &[u8], pos: usize) -> (res: Result<
        (ClearAllEntries, usize),
        ReadError,
    >)
        ensures
            agrees(res, parse_clear_all_entries(buf@, pos as int)),
    {
        let (magic, p) = read_u32(buf, pos)?;
        Ok((ClearAllEntries { magic }, p))
    }
}

impl RpcExecute {
    pub fn new(entry_id: u16, unique_id: u16, parameter: Vec<u8>) -> (r: RpcExecute)
        ensures
            r.entry_id == entry_id,
            r.unique_id == unique_id,
            r.parameter == parameter,
    {
        RpcExecute { entry_id, unique_id, parameter }
    }

    pub fn serialize(&self, buf: &mut Vec<u8>)
        ensures
            final(buf)@ == old(buf)@ + packet_bytes(self@),
    {
        let ghost start = buf@;
        put_u8(buf, 0x20);
        put_u16(buf, self.entry_id);
        put_u16(buf, self.unique_id);
        put_blob(buf, self.parameter.as_slice());
        assert(buf@ =~= start + packet_bytes(self@));
    }

    pub fn deserialize(buf: &[u8], pos: usize) -> (res: Result<(RpcExecute, usize), ReadError>)
        ensures
            agrees(res, parse_rpc_execute(buf@, pos as int)),
    {
        let (entry_id, p1) = read_u16(buf, pos)?;
        let (unique_id, p2) = read_u16(buf, p1)?;
        let (parameter, p3) = read_blob(buf, p2)?;
        Ok((RpcExecute { entry_id, unique_id, parameter }, p3))
    }
}

impl RpcResponse {
    pub fn new(entry_id: u16, unique_id: u16, result: Vec<u8>) -> (r: RpcResponse)
        ensures
            r.entry_id == entry_id,
            r.unique_id == unique_id,
            r.result == result,
    {
        RpcResponse { entry_id, unique_id, result }
    }

    pub fn serialize(&self, buf: &mut Vec<u8>)
        ensures
            final(buf)@ == old(buf)@ + packet_bytes(self@),
    {
        let ghost start = buf@;
        put_u8(buf, 0x21);
        put_u16(buf, self.entry_id);
        put_u16(buf, self.unique_id);
        put_blob(buf, self.result.as_slice());
        assert(buf@ =~= start + packet_bytes(self@));
    }

    pub fn deserialize(buf: &[u8], pos: usize) -> (res: Result<(RpcResponse, usize), ReadError>)
        ensures
            agrees(res, parse_rpc_response(buf@, pos as int)),
    {
        let (entry_id, p1) = read_u16(buf, pos)?;
        let (unique_id, p2) = read_u16(buf, p1)?;
        let (result, p3) = read_blob(buf, p2)?;
        Ok((RpcResponse { entry_id, unique_id, result }, p3))
    }
}

/// The models of a list of messages.
pub open spec fn packets_model(packets: Seq<ReceivedPacket>) -> Seq<PacketModel> {
    packets.map_values(|p: ReceivedPacket| p@)
}

impl ReceivedPacket {
    /// A message that the wire format can carry: every message but one whose value is an RPC
    /// definition with more than 255 parameters or results.
    pub open spec fn encodable(&self) -> bool {
        match self {
            ReceivedPacket::EntryAssignment(p) => p.entry_value.encodable(),
            ReceivedPacket::EntryUpdate(p) => p.entry_value.encodable(),
            _ => true,
        }
    }

    /// A copy of the message.
    pub fn duplicate(&self) -> (r: ReceivedPacket)
        ensures
            r@ == self@,
            r.encodable() == self.encodable(),
    {
        match self {
            ReceivedPacket::KeepAlive => ReceivedPacket::KeepAlive,
            ReceivedPacket::ClientHello(p) => ReceivedPacket::ClientHello(
                ClientHello { version: p.version, name: p.name.clone() },
            ),
            ReceivedPacket::ProtocolVersionUnsupported(p) => {
                ReceivedPacket::ProtocolVersionUnsupported(*p)
            },
            ReceivedPacket::ServerHelloComplete => ReceivedPacket::ServerHelloComplete,
            ReceivedPacket::ServerHello(p) => ReceivedPacket::ServerHello(
                ServerHello { flags: p.flags, name: p.name.clone() },
            ),
            ReceivedPacket::ClientHelloComplete => ReceivedPacket::ClientHelloComplete,
            ReceivedPacket::EntryAssignment(p) => ReceivedPacket::EntryAssignment(
                EntryAssignment {
                    entry_name: p.entry_name.clone(),
                    entry_type: p.entry_type,
                    entry_id: p.entry_id,
                    entry_seqnum: p.entry_seqnum,
                    entry_flags: p.entry_flags,
                    entry_value: p.entry_value.duplicate(),
                },
            ),
            ReceivedPacket::EntryUpdate(p) => ReceivedPacket::EntryUpdate(
                EntryUpdate {
                    entry_id: p.entry_id,
                    entry_seqnum: p.entry_seqnum,
                    entry_type: p.entry_type,
                    entry_value: p.entry_value.duplicate(),
                },
            ),
            ReceivedPacket::EntryFlagsUpdate(p) => ReceivedPacket::EntryFlagsUpdate(*p),
            ReceivedPacket::EntryDelete(p) => ReceivedPacket::EntryDelete(*p),
            ReceivedPacket::ClearAllEntries(p) => ReceivedPacket::ClearAllEntries(*p),
            ReceivedPacket::RpcExecute(p) => ReceivedPacket::RpcExecute(
                RpcExecute {
                    entry_id: p.entry_id,
                    unique_id: p.unique_id,
                    parameter: vstd::slice::slice_to_vec(p.parameter.as_slice()),
                },
            ),
            ReceivedPacket::RpcResponse(p) => ReceivedPacket::RpcResponse(
                RpcResponse {
                    entry_id: p.entry_id,
                    unique_id: p.unique_id,
                    result: vstd::slice::slice_to_vec(p.result.as_slice()),
                },
            ),
        }
    }

    /// Whether the wire format can carry the message.
    pub fn is_encodable(&self) -> (b: bool)
        ensures
            b == self.encodable(),
    {
        match self {
            ReceivedPacket::EntryAssignment(p) => p.entry_value.is_encodable(),
            ReceivedPacket::EntryUpdate(p) => p.entry_value.is_encodable(),
            _ => true,
        }
    }

    /// Appends the message, tag first.
    pub fn serialize(&self, buf: &mut Vec<u8>)
        requires
            self.encodable(),
        ensures
            final(buf)@ == old(buf)@ + packet_bytes(self@),
    {
        match self {
            ReceivedPacket::KeepAlive => KeepAlive.serialize(buf),
            ReceivedPacket::ClientHello(p) => p.serialize(buf),
            ReceivedPacket::ProtocolVersionUnsupported(p) => p.serialize(buf),
            ReceivedPacket::ServerHelloComplete => ServerHelloComplete.serialize(buf),
            ReceivedPacket::ServerHello(p) => p.serialize(buf),
            ReceivedPacket::ClientHelloComplete => ClientHelloComplete.serialize(buf),
            ReceivedPacket::EntryAssignment(p) => p.serialize(buf),
            ReceivedPacket::EntryUpdate(p) => p.serialize(buf),
            ReceivedPacket::EntryFlagsUpdate(p) => p.serialize(buf),
            ReceivedPacket::EntryDelete(p) => p.serialize(buf),
            ReceivedPacket::ClearAllEntries(p) => p.serialize(buf),
            ReceivedPacket::RpcExecute(p) => p.serialize(buf),
            ReceivedPacket::RpcResponse(p) => p.serialize(buf),
        }
    }
}

/// Reads one message at `pos`: the message and the position behind it, `NeedMoreData` where the
/// buffer ends inside the message, `MalformedFrame` where no message starts like this.
#[verifier::rlimit(50)]
pub fn try_decode(buf: &[u8], pos: usize) -> (res: Result<(ReceivedPacket, usize), ReadError>)
    ensures
        agrees(res, parse_packet(buf@, pos as int)),
{
    let (id, p) = read_u8(buf, pos)?;
    match id {
        0x00 => Ok((ReceivedPacket::KeepAlive, p)),
        0x01 => {
            let (packet, end) = ClientHello::deserialize(buf, p)?;
            Ok((ReceivedPacket::ClientHello(packet), end))
        },
        0x02 => {
            let (packet, end) = ProtocolVersionUnsupported::deserialize(buf, p)?;
            Ok((ReceivedPacket::ProtocolVersionUnsupported(packet), end))
        },
        0x03 => Ok((ReceivedPacket::ServerHelloComplete, p)),
        0x04 => {
            let (packet, end) = ServerHello::deserialize(buf, p)?;
            Ok((ReceivedPacket::ServerHello(packet), end))
        },
        0x05 => Ok((ReceivedPacket::ClientHelloComplete, p)),
        0x10 => {
            let (packet, end) = EntryAssignment::deserialize(buf, p)?;
            Ok((ReceivedPacket::EntryAssignment(packet), end))
        },
        0x11 => {
            let (packet, end) = EntryUpdate::deserialize(buf, p)?;
            Ok((ReceivedPacket::EntryUpdate(packet), end))
        },
        0x12 => {
            let (packet, end) = EntryFlagsUpdate::deserialize(buf, p)?;
            Ok((ReceivedPacket::EntryFlagsUpdate(packet), end))
        },
        0x13 => {
            let (packet, end) = EntryDelete::deserialize(buf, p)?;
            Ok((ReceivedPacket::EntryDelete(packet), end))
        },
        0x14 => {
            let (packet, end) = ClearAllEntries::deserialize(buf, p)?;
            Ok((ReceivedPacket::ClearAllEntries(packet), end))
        },
        0x20 => {
            let (packet, end) = RpcExecute::deserialize(buf, p)?;
            Ok((ReceivedPacket::RpcExecute(packet), end))
        },
        0x21 => {
            let (packet, end) = RpcResponse::deserialize(buf, p)?;
            Ok((ReceivedPacket::RpcResponse(packet), end))
        },
        _ => Err(ReadError::MalformedFrame(FrameError::UnknownPacket(id))),
    }
}

} // verus!
