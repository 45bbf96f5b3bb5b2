//! Truncation: a buffer that ends inside a message is told apart from a malformed one.
//!
//! Every reader of the wire format finds `NeedMoreData`, and nothing else, where the buffer
//! holds a proper start of what a writer wrote.

use crate::error::ReadError;
use crate::leb128::{decoding, decoding_from, encoding, lemma_encoding_len, pow128};
use crate::packets::{
    packet_bytes, parse_clear_all_entries, parse_client_hello, parse_entry_assignment,
    parse_entry_delete, parse_entry_flags_update, parse_entry_update, parse_packet, parse_payload,
    parse_protocol_version_unsupported, parse_rpc_execute, parse_rpc_response, parse_server_hello,
    payload_bytes, PacketModel,
};
use crate::types::{
    lemma_parse_entry_type, parse_entry_type, parse_plain, parse_rpc, parse_value, plain_bytes,
    rpc_body, value_bytes, ValueModel,
};
use crate::wire::{
    array_bytes, blob_bytes, bool_byte, bool_parser, bool_ser, holds_at, items_bytes,
    lemma_items_bytes_first, lemma_parse_bool, lemma_parse_string, lemma_parse_u16,
    lemma_parse_u64, lemma_parse_u8, parse_array, parse_blob, parse_bool, parse_items,
    parse_string, parse_u16, parse_u32, parse_u64, parse_u8, string_bytes, string_parser,
    string_ser, u16_bytes, u32_bytes, u64_bytes, u64_parser, u64_ser,
};
use vstd::prelude::*;
use vstd::utf8::encode_utf8;

verus! {

/// The buffer `s` ends inside `part`: from `pos` on it holds a proper start of `part`.
pub open spec fn cut_at(s: Seq<u8>, pos: int, part: Seq<u8>) -> bool {
    0 <= pos <= s.len() && s.len() - pos < part.len() && s.subrange(pos, s.len() as int)
        == part.take(s.len() - pos)
}

/// What `cut_at` says of the single bytes.
pub proof fn lemma_cut_bytes(s: Seq<u8>, pos: int, part: Seq<u8>)
    requires
        cut_at(s, pos, part),
    ensures
        forall|j: int| 0 <= j < s.len() - pos ==> #[trigger] s[pos + j] == part[j],
{
    let n = s.len() - pos;
    assert forall|j: int| 0 <= j < n implies #[trigger] s[pos + j] == part[j] by {
        assert(s.subrange(pos, s.len() as int)[j] == part.take(n)[j]);
    }
}

/// A buffer that ends inside `a + b` ends inside `a`, or holds `a` and ends inside `b`.
pub proof fn lemma_cut_split(s: Seq<u8>, pos: int, a: Seq<u8>, b: Seq<u8>)
    requires
        cut_at(s, pos, a + b),
    ensures
        cut_at(s, pos, a) || (holds_at(s, pos, a) && cut_at(s, pos + a.len(), b)),
{
    let n = s.len() - pos;
    lemma_cut_bytes(s, pos, a + b);
    if n < a.len() {
        assert(s.subrange(pos, s.len() as int) =~= a.take(n)) by {
            assert forall|j: int| 0 <= j < n implies s.subrange(pos, s.len() as int)[j] == a.take(
                n,
            )[j] by {
                assert(s[pos + j] == (a + b)[j]);
            }
        }
    } else {
        assert(s.subrange(pos, pos + a.len()) =~= a) by {
            assert forall|j: int| 0 <= j < a.len() implies s.subrange(pos, pos + a.len())[j]
                == a[j] by {
                assert(s[pos + j] == (a + b)[j]);
            }
        }
        let q = pos + a.len();
        assert(s.subrange(q, s.len() as int) =~= b.take(s.len() - q)) by {
            assert forall|j: int| 0 <= j < s.len() - q implies s.subrange(q, s.len() as int)[j]
                == b.take(s.len() - q)[j] by {
                assert(s[pos + (a.len() + j)] == (a + b)[a.len() + j]);
            }
        }
    }
}

/// A buffer that ends inside a field of fixed width asks for more.
pub proof fn lemma_cut_fixed(s: Seq<u8>, pos: int, part: Seq<u8>)
    requires
        cut_at(s, pos, part),
    ensures
        part.len() == 1 ==> parse_u8(s, pos) == Err::<(u8, int), ReadError>(ReadError::NeedMoreData),
        part.len() == 1 ==> parse_bool(s, pos) == Err::<(bool, int), ReadError>(
            ReadError::NeedMoreData,
        ),
        part.len() == 2 ==> parse_u16(s, pos) == Err::<(u16, int), ReadError>(
            ReadError::NeedMoreData,
        ),
        part.len() == 4 ==> parse_u32(s, pos) == Err::<(u32, int), ReadError>(
            ReadError::NeedMoreData,
        ),
        part.len() == 8 ==> parse_u64(s, pos) == Err::<(u64, int), ReadError>(
            ReadError::NeedMoreData,
        ),
{
}

proof fn lemma_cut_decoding_from(s: Seq<u8>, pos: int, v: nat, i: nat, acc: nat)
    requires
        i + encoding(v).len() <= 10,
        cut_at(s, pos, encoding(v)),
    ensures
        decoding_from(s, pos, i, acc) == Err::<(u64, int), ReadError>(ReadError::NeedMoreData),
    decreases v,
{
    if pos < s.len() {
        let enc = encoding(v);
        lemma_cut_bytes(s, pos, enc);
        assert(s[pos + 0] == enc[0]);
        assert(enc.len() >= 2);
        assert(v >= 128);
        let rest = v / 128;
        assert(enc.subrange(1, enc.len() as int) =~= encoding(rest));
        let tail = s.subrange(pos + 1, s.len() as int);
        let wanted = encoding(rest).take(s.len() - pos - 1);
        assert(tail =~= wanted) by {
            assert forall|j: int| 0 <= j < tail.len() implies #[trigger] tail[j] == wanted[j] by {
                assert(s[pos + (j + 1)] == enc[j + 1]);
                assert(enc.subrange(1, enc.len() as int)[j] == enc[j + 1]);
            }
        }
        let next = (acc + (s[pos] % 128) * pow128(i)) as nat;
        lemma_cut_decoding_from(s, pos + 1, rest, (i + 1) as nat, next);
    }
}

/// A buffer that ends inside a length asks for more.
pub proof fn lemma_cut_length(s: Seq<u8>, pos: int, v: nat)
    requires
        v <= u64::MAX,
        cut_at(s, pos, encoding(v)),
    ensures
        decoding(s, pos) == Err::<(u64, int), ReadError>(ReadError::NeedMoreData),
{
    lemma_encoding_len(v);
    lemma_cut_decoding_from(s, pos, v, 0, 0);
}

/// A buffer that ends inside a byte array, or inside a string, asks for more.
pub proof fn lemma_cut_blob(s: Seq<u8>, pos: int, b: Seq<u8>)
    requires
        b.len() <= u64::MAX,
        cut_at(s, pos, blob_bytes(b)),
    ensures
        parse_blob(s, pos) == Err::<(Seq<u8>, int), ReadError>(ReadError::NeedMoreData),
        parse_string(s, pos) == Err::<(Seq<char>, int), ReadError>(ReadError::NeedMoreData),
{
    let prefix = encoding(b.len());
    lemma_cut_split(s, pos, prefix, b);
    if cut_at(s, pos, prefix) {
        lemma_cut_length(s, pos, b.len());
    } else {
        crate::leb128::lemma_decoding_of_encoding(s, pos, b.len() as u64);
    }
}

/// A buffer that ends inside a row of items asks for more, where it does so inside each.
pub proof fn lemma_cut_items<T>(
    elem: spec_fn(Seq<u8>, int) -> Result<(T, int), ReadError>,
    ser: spec_fn(T) -> Seq<u8>,
    s: Seq<u8>,
    pos: int,
    items: Seq<T>,
    acc: Seq<T>,
)
    requires
        cut_at(s, pos, items_bytes(ser, items)),
        forall|i: int, q: int|
            #![trigger items[i], elem(s, q)]
            0 <= i < items.len() && holds_at(s, q, ser(items[i])) ==> elem(s, q) == Ok::<
                (T, int),
                ReadError,
            >((items[i], q + ser(items[i]).len())),
        forall|i: int, q: int|
            #![trigger items[i], elem(s, q)]
            0 <= i < items.len() && cut_at(s, q, ser(items[i])) ==> elem(s, q) == Err::<
                (T, int),
                ReadError,
            >(ReadError::NeedMoreData),
    ensures
        parse_items(elem, s, pos, items.len(), acc) == Err::<(Seq<T>, int), ReadError>(
            ReadError::NeedMoreData,
        ),
    decreases items.len(),
{
    if items.len() == 0 {
        assert(items_bytes(ser, items) =~= Seq::<u8>::empty());
    } else {
        let rest = items.drop_first();
        lemma_items_bytes_first(ser, items);
        lemma_cut_split(s, pos, ser(items[0]), items_bytes(ser, rest));
        if cut_at(s, pos, ser(items[0])) {
            assert(elem(s, pos) == Err::<(T, int), ReadError>(ReadError::NeedMoreData));
        } else {
            assert(elem(s, pos) == Ok::<(T, int), ReadError>(
                (items[0], pos + ser(items[0]).len()),
            ));
            assert forall|i: int, q: int|
                #![trigger rest[i], elem(s, q)]
                0 <= i < rest.len() && holds_at(s, q, ser(rest[i])) implies elem(s, q) == Ok::<
                (T, int),
                ReadError,
            >((rest[i], q + ser(rest[i]).len())) by {
                assert(rest[i] == items[i + 1]);
            }
            assert forall|i: int, q: int|
                #![trigger rest[i], elem(s, q)]
                0 <= i < rest.len() && cut_at(s, q, ser(rest[i])) implies elem(s, q) == Err::<
                (T, int),
                ReadError,
            >(ReadError::NeedMoreData) by {
                assert(rest[i] == items[i + 1]);
            }
            lemma_cut_items(elem, ser, s, pos + ser(items[0]).len(), rest, acc.push(items[0]));
        }
    }
}

/// A buffer that ends inside an array asks for more, where it does so inside each item.
pub proof fn lemma_cut_array<T>(
    elem: spec_fn(Seq<u8>, int) -> Result<(T, int), ReadError>,
    ser: spec_fn(T) -> Seq<u8>,
    s: Seq<u8>,
    pos: int,
    items: Seq<T>,
)
    requires
        items.len() <= u64::MAX,
        cut_at(s, pos, array_bytes(ser, items)),
        forall|i: int, q: int|
            #![trigger items[i], elem(s, q)]
            0 <= i < items.len() && holds_at(s, q, ser(items[i])) ==> elem(s, q) == Ok::<
                (T, int),
                ReadError,
            >((items[i], q + ser(items[i]).len())),
        forall|i: int, q: int|
            #![trigger items[i], elem(s, q)]
            0 <= i < items.len() && cut_at(s, q, ser(items[i])) ==> elem(s, q) == Err::<
                (T, int),
                ReadError,
            >(ReadError::NeedMoreData),
    ensures
        parse_array(elem, s, pos) == Err::<(Seq<T>, int), ReadError>(ReadError::NeedMoreData),
{
    let prefix = encoding(items.len());
    lemma_cut_split(s, pos, prefix, items_bytes(ser, items));
    if cut_at(s, pos, prefix) {
        lemma_cut_length(s, pos, items.len());
    } else {
        crate::leb128::lemma_decoding_of_encoding(s, pos, items.len() as u64);
        lemma_cut_items(elem, ser, s, pos + prefix.len(), items, Seq::empty());
    }
}

/// A buffer that ends inside a plain value asks for more.
pub proof fn lemma_cut_plain(s: Seq<u8>, pos: int, m: ValueModel)
    requires
        m.is_plain(),
        m.plain_wf(),
        cut_at(s, pos, plain_bytes(m)),
    ensures
        parse_plain(m.entry_type(), s, pos) == Err::<(ValueModel, int), ReadError>(
            ReadError::NeedMoreData,
        ),
{
    match m {
        ValueModel::Boolean(b) => lemma_cut_fixed(s, pos, seq![bool_byte(b)]),
        ValueModel::Double(v) => lemma_cut_fixed(s, pos, u64_bytes(v)),
        ValueModel::String(t) => lemma_cut_blob(s, pos, encode_utf8(t)),
        ValueModel::RawData(b) => lemma_cut_blob(s, pos, b),
        ValueModel::BooleanArray(a) => {
            assert forall|i: int, q: int|
                #![trigger a[i], bool_parser()(s, q)]
                0 <= i < a.len() && holds_at(s, q, bool_ser()(a[i])) implies bool_parser()(s, q)
                == Ok::<(bool, int), ReadError>((a[i], q + bool_ser()(a[i]).len())) by {
                lemma_parse_bool(s, q, a[i]);
            }
            assert forall|i: int, q: int|
                #![trigger a[i], bool_parser()(s, q)]
                0 <= i < a.len() && cut_at(s, q, bool_ser()(a[i])) implies bool_parser()(s, q)
                == Err::<(bool, int), ReadError>(ReadError::NeedMoreData) by {
                lemma_cut_fixed(s, q, seq![bool_byte(a[i])]);
            }
            lemma_cut_array(bool_parser(), bool_ser(), s, pos, a);
        },
        ValueModel::DoubleArray(a) => {
            assert forall|i: int, q: int|
                #![trigger a[i], u64_parser()(s, q)]
                0 <= i < a.len() && holds_at(s, q, u64_ser()(a[i])) implies u64_parser()(s, q)
                == Ok::<(u64, int), ReadError>((a[i], q + u64_ser()(a[i]).len())) by {
                lemma_parse_u64(s, q, a[i]);
            }
            assert forall|i: int, q: int|
                #![trigger a[i], u64_parser()(s, q)]
                0 <= i < a.len() && cut_at(s, q, u64_ser()(a[i])) implies u64_parser()(s, q)
                == Err::<(u64, int), ReadError>(ReadError::NeedMoreData) by {
                lemma_cut_fixed(s, q, u64_bytes(a[i]));
            }
            lemma_cut_array(u64_parser(), u64_ser(), s, pos, a);
        },
        ValueModel::StringArray(a) => {
            assert forall|i: int, q: int|
                #![trigger a[i], string_parser()(s, q)]
                0 <= i < a.len() && holds_at(s, q, string_ser()(a[i])) implies string_parser()(
                s,
                q,
            ) == Ok::<(Seq<char>, int), ReadError>((a[i], q + string_ser()(a[i]).len())) by {
                lemma_parse_string(s, q, a[i]);
            }
            assert forall|i: int, q: int|
                #![trigger a[i], string_parser()(s, q)]
                0 <= i < a.len() && cut_at(s, q, string_ser()(a[i])) implies string_parser()(
                s,
                q,
            ) == Err::<(Seq<char>, int), ReadError>(ReadError::NeedMoreData) by {
                lemma_cut_blob(s, q, encode_utf8(a[i]));
            }
            lemma_cut_array(string_parser(), string_ser(), s, pos, a);
        },
        ValueModel::RpcDefinition(_) => {},
    }
}

/// A buffer that ends inside a value asks for more.
pub proof fn lemma_cut_value(s: Seq<u8>, pos: int, m: ValueModel)
    requires
        m.wf(),
        cut_at(s, pos, value_bytes(m)),
    ensures
        parse_value(m.entry_type(), s, pos) == Err::<(ValueModel, int), ReadError>(
            ReadError::NeedMoreData,
        ),
{
    match m {
        ValueModel::RpcDefinition(r) => {
            lemma_cut_blob(s, pos, rpc_body(r));
            assert(parse_rpc(s, pos) is Err);
        },
        _ => lemma_cut_plain(s, pos, m),
    }
}

proof fn lemma_cut_client_hello(s: Seq<u8>, p: int, m: PacketModel)
    requires
        m is ClientHello,
        m.wf(),
        cut_at(s, p, payload_bytes(m)),
    ensures
        parse_client_hello(s, p) == Err::<(PacketModel, int), ReadError>(ReadError::NeedMoreData),
{
    let version = m->ClientHello_version;
    let name = m->ClientHello_name;
    lemma_cut_split(s, p, u16_bytes(version.number()), string_bytes(name));
    if cut_at(s, p, u16_bytes(version.number())) {
        lemma_cut_fixed(s, p, u16_bytes(version.number()));
    } else {
        lemma_parse_u16(s, p, version.number());
        lemma_cut_blob(s, p + 2, encode_utf8(name));
    }
}

proof fn lemma_cut_server_hello(s: Seq<u8>, p: int, m: PacketModel)
    requires
        m is ServerHello,
        m.wf(),
        cut_at(s, p, payload_bytes(m)),
    ensures
        parse_server_hello(s, p) == Err::<(PacketModel, int), ReadError>(ReadError::NeedMoreData),
{
    let flags = m->ServerHello_flags;
    let name = m->ServerHello_name;
    lemma_cut_split(s, p, seq![flags], string_bytes(name));
    if cut_at(s, p, seq![flags]) {
        lemma_cut_fixed(s, p, seq![flags]);
    } else {
        lemma_parse_u8(s, p, flags);
        lemma_cut_blob(s, p + 1, encode_utf8(name));
    }
}

#[verifier::rlimit(50)]
proof fn lemma_cut_entry_assignment(s: Seq<u8>, p: int, m: PacketModel)
    requires
        m is EntryAssignment,
        m.wf(),
        cut_at(s, p, payload_bytes(m)),
    ensures
        parse_entry_assignment(s, p) == Err::<(PacketModel, int), ReadError>(ReadError::NeedMoreData),
{
    let name = m->EntryAssignment_entry_name;
    let ty = m->EntryAssignment_entry_type;
    let value = m->EntryAssignment_entry_value;
    let a0 = string_bytes(name);
    let a1 = seq![ty.tag()];
    let a2 = u16_bytes(m->EntryAssignment_entry_id);
    let a3 = u16_bytes(m->EntryAssignment_entry_seqnum);
    let a4 = seq![m->EntryAssignment_entry_flags];
    let a5 = value_bytes(value);
    assert(payload_bytes(m) =~= a0 + (a1 + (a2 + (a3 + (a4 + a5)))));
    lemma_cut_split(s, p, a0, a1 + (a2 + (a3 + (a4 + a5))));
    if cut_at(s, p, a0) {
        lemma_cut_blob(s, p, encode_utf8(name));
    } else {
        lemma_parse_string(s, p, name);
        let p1 = p + a0.len();
        lemma_cut_split(s, p1, a1, a2 + (a3 + (a4 + a5)));
        if cut_at(s, p1, a1) {
            lemma_cut_fixed(s, p1, a1);
        } else {
            lemma_parse_entry_type(s, p1, ty);
            lemma_cut_split(s, p1 + 1, a2, a3 + (a4 + a5));
            if cut_at(s, p1 + 1, a2) {
                lemma_cut_fixed(s, p1 + 1, a2);
            } else {
                lemma_parse_u16(s, p1 + 1, m->EntryAssignment_entry_id);
                lemma_cut_split(s, p1 + 3, a3, a4 + a5);
                if cut_at(s, p1 + 3, a3) {
                    lemma_cut_fixed(s, p1 + 3, a3);
                } else {
                    lemma_parse_u16(s, p1 + 3, m->EntryAssignment_entry_seqnum);
                    lemma_cut_split(s, p1 + 5, a4, a5);
                    if cut_at(s, p1 + 5, a4) {
                        lemma_cut_fixed(s, p1 + 5, a4);
                    } else {
                        lemma_parse_u8(s, p1 + 5, m->EntryAssignment_entry_flags);
                        lemma_cut_value(s, p1 + 6, value);
                    }
                }
            }
        }
    }
}

#[verifier::rlimit(50)]
proof fn lemma_cut_entry_update(s: Seq<u8>, p: int, m: PacketModel)
    requires
        m is EntryUpdate,
        m.wf(),
        cut_at(s, p, payload_bytes(m)),
    ensures
        parse_entry_update(s, p) == Err::<(PacketModel, int), ReadError>(ReadError::NeedMoreData),
{
    let ty = m->EntryUpdate_entry_type;
    let value = m->EntryUpdate_entry_value;
    let a0 = u16_bytes(m->EntryUpdate_entry_id);
    let a1 = u16_bytes(m->EntryUpdate_entry_seqnum);
    let a2 = seq![ty.tag()];
    let a3 = value_bytes(value);
    assert(payload_bytes(m) =~= a0 + (a1 + (a2 + a3)));
    lemma_cut_split(s, p, a0, a1 + (a2 + a3));
    if cut_at(s, p, a0) {
        lemma_cut_fixed(s, p, a0);
    } else {
        lemma_parse_u16(s, p, m->EntryUpdate_entry_id);
        lemma_cut_split(s, p + 2, a1, a2 + a3);
        if cut_at(s, p + 2, a1) {
            lemma_cut_fixed(s, p + 2, a1);
        } else {
            lemma_parse_u16(s, p + 2, m->EntryUpdate_entry_seqnum);
            lemma_cut_split(s, p + 4, a2, a3);
            if cut_at(s, p + 4, a2) {
                lemma_cut_fixed(s, p + 4, a2);
            } else {
                lemma_parse_entry_type(s, p + 4, ty);
                lemma_cut_value(s, p + 5, value);
            }
        }
    }
}

proof fn lemma_cut_entry_flags_update(s: Seq<u8>, p: int, m: PacketModel)
    requires
        m is EntryFlagsUpdate,
        cut_at(s, p, payload_bytes(m)),
    ensures
        parse_entry_flags_update(s, p) == Err::<(PacketModel, int), ReadError>(ReadError::NeedMoreData),
{
    let a0 = u16_bytes(m->EntryFlagsUpdate_entry_id);
    let a1 = seq![m->EntryFlagsUpdate_entry_flags];
    lemma_cut_split(s, p, a0, a1);
    if cut_at(s, p, a0) {
        lemma_cut_fixed(s, p, a0);
    } else {
        lemma_parse_u16(s, p, m->EntryFlagsUpdate_entry_id);
        lemma_cut_fixed(s, p + 2, a1);
    }
}

proof fn lemma_cut_rpc_execute(s: Seq<u8>, p: int, m: PacketModel)
    requires
        m is RpcExecute,
        m.wf(),
        cut_at(s, p, payload_bytes(m)),
    ensures
        parse_rpc_execute(s, p) == Err::<(PacketModel, int), ReadError>(ReadError::NeedMoreData),
{
    let a0 = u16_bytes(m->RpcExecute_entry_id);
    let a1 = u16_bytes(m->RpcExecute_unique_id);
    let a2 = blob_bytes(m->parameter);
    assert(payload_bytes(m) =~= a0 + (a1 + a2));
    lemma_cut_split(s, p, a0, a1 + a2);
    if cut_at(s, p, a0) {
        lemma_cut_fixed(s, p, a0);
    } else {
        lemma_parse_u16(s, p, m->RpcExecute_entry_id);
        lemma_cut_split(s, p + 2, a1, a2);
        if cut_at(s, p + 2, a1) {
            lemma_cut_fixed(s, p + 2, a1);
        } else {
            lemma_parse_u16(s, p + 2, m->RpcExecute_unique_id);
            lemma_cut_blob(s, p + 4, m->parameter);
        }
    }
}

proof fn lemma_cut_rpc_response(s: Seq<u8>, p: int, m: PacketModel)
    requires
        m is RpcResponse,
        m.wf(),
        cut_at(s, p, payload_bytes(m)),
    ensures
        parse_rpc_response(s, p) == Err::<(PacketModel, int), ReadError>(ReadError::NeedMoreData),
{
    let a0 = u16_bytes(m->RpcResponse_entry_id);
    let a1 = u16_bytes(m->RpcResponse_unique_id);
    let a2 = blob_bytes(m->result);
    assert(payload_bytes(m) =~= a0 + (a1 + a2));
    lemma_cut_split(s, p, a0, a1 + a2);
    if cut_at(s, p, a0) {
        lemma_cut_fixed(s, p, a0);
    } else {
        lemma_parse_u16(s, p, m->RpcResponse_entry_id);
        lemma_cut_split(s, p + 2, a1, a2);
        if cut_at(s, p + 2, a1) {
            lemma_cut_fixed(s, p + 2, a1);
        } else {
            lemma_parse_u16(s, p + 2, m->RpcResponse_unique_id);
            lemma_cut_blob(s, p + 4, m->result);
        }
    }
}

/// A buffer that ends inside the fields of a message asks for more.
#[verifier::rlimit(50)]
proof fn lemma_cut_payload(s: Seq<u8>, p: int, m: PacketModel)
    requires
        m.wf(),
        cut_at(s, p, payload_bytes(m)),
    ensures
        parse_payload(m.tag(), s, p) == Err::<(PacketModel, int), ReadError>(ReadError::NeedMoreData),
{
    match m {
        PacketModel::KeepAlive => {},
        PacketModel::ServerHelloComplete => {},
        PacketModel::ClientHelloComplete => {},
        PacketModel::ClientHello { .. } => {
            lemma_cut_client_hello(s, p, m);
            assert(parse_payload(0x01, s, p) == parse_client_hello(s, p));
        },
        PacketModel::ProtocolVersionUnsupported { supported_version } => {
            lemma_cut_fixed(s, p, u16_bytes(supported_version));
            assert(parse_payload(0x02, s, p) == parse_protocol_version_unsupported(s, p));
        },
        PacketModel::ServerHello { .. } => {
            lemma_cut_server_hello(s, p, m);
            assert(parse_payload(0x04, s, p) == parse_server_hello(s, p));
        },
        PacketModel::EntryAssignment { .. } => {
            lemma_cut_entry_assignment(s, p, m);
            assert(parse_payload(0x10, s, p) == parse_entry_assignment(s, p));
        },
        PacketModel::EntryUpdate { .. } => {
            lemma_cut_entry_update(s, p, m);
            assert(parse_payload(0x11, s, p) == parse_entry_update(s, p));
        },
        PacketModel::EntryFlagsUpdate { .. } => {
            lemma_cut_entry_flags_update(s, p, m);
            assert(parse_payload(0x12, s, p) == parse_entry_flags_update(s, p));
        },
        PacketModel::EntryDelete { entry_id } => {
            lemma_cut_fixed(s, p, u16_bytes(entry_id));
            assert(parse_payload(0x13, s, p) == parse_entry_delete(s, p));
        },
        PacketModel::ClearAllEntries { magic } => {
            lemma_cut_fixed(s, p, u32_bytes(magic));
            assert(parse_payload(0x14, s, p) == parse_clear_all_entries(s, p));
        },
        PacketModel::RpcExecute { .. } => {
            lemma_cut_rpc_execute(s, p, m);
            assert(parse_payload(0x20, s, p) == parse_rpc_execute(s, p));
        },
        PacketModel::RpcResponse { .. } => {
            lemma_cut_rpc_response(s, p, m);
            assert(parse_payload(0x21, s, p) == parse_rpc_response(s, p));
        },
    }
}

/// A buffer that ends inside a message asks for more, wherever the message starts.
pub proof fn lemma_cut_packet(s: Seq<u8>, pos: int, m: PacketModel)
    requires
        m.wf(),
        cut_at(s, pos, packet_bytes(m)),
    ensures
        parse_packet(s, pos) == Err::<(PacketModel, int), ReadError>(ReadError::NeedMoreData),
{
    lemma_cut_split(s, pos, seq![m.tag()], payload_bytes(m));
    if cut_at(s, pos, seq![m.tag()]) {
        lemma_cut_fixed(s, pos, seq![m.tag()]);
    } else {
        lemma_parse_u8(s, pos, m.tag());
        lemma_cut_payload(s, pos + 1, m);
    }
}

/// A proper start of a message, read from its first byte, asks for more: nothing of it is
/// taken for a message, and nothing of it for a malformed one.
pub proof fn lemma_prefix_needs_more(m: PacketModel, k: int)
    requires
        m.wf(),
        0 <= k < packet_bytes(m).len(),
    ensures
        parse_packet(packet_bytes(m).take(k), 0) == Err::<(PacketModel, int), ReadError>(ReadError::NeedMoreData),
{
    let s = packet_bytes(m).take(k);
    assert(s.subrange(0, s.len() as int) =~= packet_bytes(m).take(s.len() - 0));
    lemma_cut_packet(s, 0, m);
}

} // verus!
