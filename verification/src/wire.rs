//! The fixed-width integers, byte arrays and strings that messages are made of.
//!
//! Multi-byte integers are big-endian. A byte array is its length as LEB128 and then its bytes;
//! a string is the byte array of its UTF-8 encoding.

use crate::error::{agrees, FrameError, ReadError};
use crate::leb128;
use vstd::prelude::*;
use vstd::slice::{slice_subrange, slice_to_vec};
use vstd::utf8::{decode_utf8, encode_utf8, valid_utf8};

verus! {

broadcast use vstd::utf8::group_utf8_lib;

pub open spec fn u16_bytes(v: u16) -> Seq<u8> {
    seq![(v / 0x100) as u8, (v % 0x100) as u8]
}

pub open spec fn u32_bytes(v: u32) -> Seq<u8> {
    seq![
        (v / 0x100_0000) as u8,
        (v / 0x1_0000 % 0x100) as u8,
        (v / 0x100 % 0x100) as u8,
        (v % 0x100) as u8,
    ]
}

pub open spec fn u64_bytes(v: u64) -> Seq<u8> {
    u32_bytes((v / 0x1_0000_0000) as u32) + u32_bytes((v % 0x1_0000_0000) as u32)
}

pub open spec fn bool_byte(b: bool) -> u8 {
    if b {
        1
    } else {
        0
    }
}

/// A byte array on the wire: its length, then its bytes.
pub open spec fn blob_bytes(b: Seq<u8>) -> Seq<u8> {
    leb128::encoding(b.len()) + b
}

/// A string on the wire: the byte array of its UTF-8 encoding.
pub open spec fn string_bytes(t: Seq<char>) -> Seq<u8> {
    blob_bytes(encode_utf8(t))
}

pub open spec fn parse_u8(s: Seq<u8>, pos: int) -> Result<(u8, int), ReadError> {
    if 0 <= pos < s.len() {
        Ok((s[pos], pos + 1))
    } else {
        Err(ReadError::NeedMoreData)
    }
}

/// A boolean is one byte; only the byte 1 is `true`.
pub open spec fn parse_bool(s: Seq<u8>, pos: int) -> Result<(bool, int), ReadError> {
    if 0 <= pos < s.len() {
        Ok((s[pos] == 1, pos + 1))
    } else {
        Err(ReadError::NeedMoreData)
    }
}

pub open spec fn parse_u16(s: Seq<u8>, pos: int) -> Result<(u16, int), ReadError> {
    if 0 <= pos && pos + 2 <= s.len() {
        Ok(((s[pos] * 0x100 + s[pos + 1]) as u16, pos + 2))
    } else {
        Err(ReadError::NeedMoreData)
    }
}

pub open spec fn parse_u32(s: Seq<u8>, pos: int) -> Result<(u32, int), ReadError> {
    if 0 <= pos && pos + 4 <= s.len() {
        Ok(
            (
                (s[pos] * 0x100_0000 + s[pos + 1] * 0x1_0000 + s[pos + 2] * 0x100 + s[pos
                    + 3]) as u32,
                pos + 4,
            ),
        )
    } else {
        Err(ReadError::NeedMoreData)
    }
}

pub open spec fn parse_u64(s: Seq<u8>, pos: int) -> Result<(u64, int), ReadError> {
    match (parse_u32(s, pos), parse_u32(s, pos + 4)) {
        (Ok((hi, _)), Ok((lo, end))) => Ok(((hi * 0x1_0000_0000 + lo) as u64, end)),
        _ => Err(ReadError::NeedMoreData),
    }
}

pub open spec fn parse_blob(s: Seq<u8>, pos: int) -> Result<(Seq<u8>, int), ReadError> {
    match leb128::decoding(s, pos) {
        Ok((len, p)) => if p + len <= s.len() {
            Ok((s.subrange(p, p + len), p + len))
        } else {
            Err(ReadError::NeedMoreData)
        },
        Err(e) => Err(e),
    }
}

pub open spec fn parse_string(s: Seq<u8>, pos: int) -> Result<(Seq<char>, int), ReadError> {
    match parse_blob(s, pos) {
        Ok((b, p)) => if valid_utf8(b) {
            Ok((decode_utf8(b), p))
        } else {
            Err(ReadError::MalformedFrame(FrameError::InvalidUtf8))
        },
        Err(e) => Err(e),
    }
}

/// The bytes of `s` from `pos` on are `part` and then whatever follows.
pub open spec fn holds_at(s: Seq<u8>, pos: int, part: Seq<u8>) -> bool {
    0 <= pos && pos + part.len() <= s.len() && s.subrange(pos, pos + part.len()) == part
}

/// Where `a + b` stands, `a` stands, and `b` stands behind it.
pub proof fn lemma_holds_at_split(s: Seq<u8>, pos: int, a: Seq<u8>, b: Seq<u8>)
    requires
        holds_at(s, pos, a + b),
    ensures
        holds_at(s, pos, a),
        holds_at(s, pos + a.len(), b),
{
    let whole = s.subrange(pos, pos + (a + b).len());
    assert(s.subrange(pos, pos + a.len()) =~= whole.subrange(0, a.len() as int));
    assert((a + b).subrange(0, a.len() as int) =~= a);
    assert(s.subrange(pos + a.len(), pos + a.len() + b.len()) =~= whole.subrange(
        a.len() as int,
        (a + b).len() as int,
    ));
    assert((a + b).subrange(a.len() as int, (a + b).len() as int) =~= b);
}

pub proof fn lemma_parse_u8(s: Seq<u8>, pos: int, v: u8)
    requires
        holds_at(s, pos, seq![v]),
    ensures
        parse_u8(s, pos) == Ok::<(u8, int), ReadError>((v, pos + 1)),
{
    assert(s[pos] == s.subrange(pos, pos + 1)[0]);
}

pub proof fn lemma_parse_bool(s: Seq<u8>, pos: int, b: bool)
    requires
        holds_at(s, pos, seq![bool_byte(b)]),
    ensures
        parse_bool(s, pos) == Ok::<(bool, int), ReadError>((b, pos + 1)),
{
    assert(s[pos] == s.subrange(pos, pos + 1)[0]);
}

pub proof fn lemma_parse_u16(s: Seq<u8>, pos: int, v: u16)
    requires
        holds_at(s, pos, u16_bytes(v)),
    ensures
        parse_u16(s, pos) == Ok::<(u16, int), ReadError>((v, pos + 2)),
{
    let part = s.subrange(pos, pos + 2);
    assert(s[pos] == part[0]);
    assert(s[pos + 1] == part[1]);
}

pub proof fn lemma_parse_u32(s: Seq<u8>, pos: int, v: u32)
    requires
        holds_at(s, pos, u32_bytes(v)),
    ensures
        parse_u32(s, pos) == Ok::<(u32, int), ReadError>((v, pos + 4)),
{
    let part = s.subrange(pos, pos + 4);
    assert(s[pos] == part[0]);
    assert(s[pos + 1] == part[1]);
    assert(s[pos + 2] == part[2]);
    assert(s[pos + 3] == part[3]);
}

pub proof fn lemma_parse_u64(s: Seq<u8>, pos: int, v: u64)
    requires
        holds_at(s, pos, u64_bytes(v)),
    ensures
        parse_u64(s, pos) == Ok::<(u64, int), ReadError>((v, pos + 8)),
{
    let hi = (v / 0x1_0000_0000) as u32;
    let lo = (v % 0x1_0000_0000) as u32;
    lemma_holds_at_split(s, pos, u32_bytes(hi), u32_bytes(lo));
    lemma_parse_u32(s, pos, hi);
    lemma_parse_u32(s, pos + 4, lo);
}

pub proof fn lemma_parse_blob(s: Seq<u8>, pos: int, b: Seq<u8>)
    requires
        b.len() <= u64::MAX,
        holds_at(s, pos, blob_bytes(b)),
    ensures
        parse_blob(s, pos) == Ok::<(Seq<u8>, int), ReadError>((b, pos + blob_bytes(b).len())),
{
    let prefix = leb128::encoding(b.len());
    lemma_holds_at_split(s, pos, prefix, b);
    leb128::lemma_decoding_of_encoding(s, pos, b.len() as u64);
}

pub proof fn lemma_parse_string(s: Seq<u8>, pos: int, t: Seq<char>)
    requires
        encode_utf8(t).len() <= u64::MAX,
        holds_at(s, pos, string_bytes(t)),
    ensures
        parse_string(s, pos) == Ok::<(Seq<char>, int), ReadError>(
            (t, pos + string_bytes(t).len()),
        ),
{
    lemma_parse_blob(s, pos, encode_utf8(t));
}

/// A successful read ends behind its start and inside the buffer.
pub proof fn lemma_blob_bounds(s: Seq<u8>, pos: int)
    ensures
        parse_blob(s, pos) matches Ok((b, p)) ==> 0 <= pos < p <= s.len(),
{
    leb128::lemma_decoding_bounds(s, pos);
}

/// What reading `n` items in a row finds, each by `elem`, after the items `acc`.
pub open spec fn parse_items<T>(
    elem: spec_fn(Seq<u8>, int) -> Result<(T, int), ReadError>,
    s: Seq<u8>,
    pos: int,
    n: nat,
    acc: Seq<T>,
) -> Result<(Seq<T>, int), ReadError>
    decreases n,
{
    if n == 0 {
        Ok((acc, pos))
    } else {
        match elem(s, pos) {
            Ok((t, p)) => parse_items(elem, s, p, (n - 1) as nat, acc.push(t)),
            Err(e) => Err(e),
        }
    }
}

/// The items one behind the other, each written by `ser`.
pub open spec fn items_bytes<T>(ser: spec_fn(T) -> Seq<u8>, items: Seq<T>) -> Seq<u8> {
    items.map_values(ser).flatten()
}

pub proof fn lemma_items_bytes_push<T>(ser: spec_fn(T) -> Seq<u8>, items: Seq<T>, t: T)
    ensures
        items_bytes(ser, items.push(t)) == items_bytes(ser, items) + ser(t),
{
    items.lemma_push_map_commute(ser, t);
    items.map_values(ser).lemma_flatten_push(ser(t));
}

pub proof fn lemma_items_bytes_first<T>(ser: spec_fn(T) -> Seq<u8>, items: Seq<T>)
    requires
        items.len() > 0,
    ensures
        items_bytes(ser, items) == ser(items[0]) + items_bytes(ser, items.drop_first()),
{
    assert(items.map_values(ser).drop_first() =~= items.drop_first().map_values(ser));
}

/// Reading items where their bytes stand gives the items back.
pub proof fn lemma_parse_items<T>(
    elem: spec_fn(Seq<u8>, int) -> Result<(T, int), ReadError>,
    ser: spec_fn(T) -> Seq<u8>,
    s: Seq<u8>,
    pos: int,
    items: Seq<T>,
    acc: Seq<T>,
)
    requires
        holds_at(s, pos, items_bytes(ser, items)),
        forall|i: int, q: int|
            #![trigger items[i], elem(s, q)]
            0 <= i < items.len() && holds_at(s, q, ser(items[i])) ==> elem(s, q) == Ok::<
                (T, int),
                ReadError,
            >((items[i], q + ser(items[i]).len())),
    ensures
        parse_items(elem, s, pos, items.len(), acc) == Ok::<(Seq<T>, int), ReadError>(
            (acc + items, pos + items_bytes(ser, items).len()),
        ),
    decreases items.len(),
{
    if items.len() == 0 {
        assert(acc + items =~= acc);
        assert(items_bytes(ser, items) =~= Seq::<u8>::empty());
    } else {
        let rest = items.drop_first();
        lemma_items_bytes_first(ser, items);
        lemma_holds_at_split(s, pos, ser(items[0]), items_bytes(ser, rest));
        assert(elem(s, pos) == Ok::<(T, int), ReadError>((items[0], pos + ser(items[0]).len())));
        assert forall|i: int, q: int|
            #![trigger rest[i], elem(s, q)]
            0 <= i < rest.len() && holds_at(s, q, ser(rest[i])) implies elem(s, q) == Ok::<
            (T, int),
            ReadError,
        >((rest[i], q + ser(rest[i]).len())) by {
            assert(rest[i] == items[i + 1]);
        }
        lemma_parse_items(elem, ser, s, pos + ser(items[0]).len(), rest, acc.push(items[0]));
        assert(acc.push(items[0]) + rest =~= acc + items);
    }
}

/// An array on the wire: how many items, then the items.
pub open spec fn array_bytes<T>(ser: spec_fn(T) -> Seq<u8>, items: Seq<T>) -> Seq<u8> {
    leb128::encoding(items.len()) + items_bytes(ser, items)
}

pub open spec fn parse_array<T>(
    elem: spec_fn(Seq<u8>, int) -> Result<(T, int), ReadError>,
    s: Seq<u8>,
    pos: int,
) -> Result<(Seq<T>, int), ReadError> {
    match leb128::decoding(s, pos) {
        Ok((n, p)) => parse_items(elem, s, p, n as nat, Seq::empty()),
        Err(e) => Err(e),
    }
}

/// Reading an array where its bytes stand gives the array back.
pub proof fn lemma_parse_array<T>(
    elem: spec_fn(Seq<u8>, int) -> Result<(T, int), ReadError>,
    ser: spec_fn(T) -> Seq<u8>,
    s: Seq<u8>,
    pos: int,
    items: Seq<T>,
)
    requires
        items.len() <= u64::MAX,
        holds_at(s, pos, array_bytes(ser, items)),
        forall|i: int, q: int|
            #![trigger items[i], elem(s, q)]
            0 <= i < items.len() && holds_at(s, q, ser(items[i])) ==> elem(s, q) == Ok::<
                (T, int),
                ReadError,
            >((items[i], q + ser(items[i]).len())),
    ensures
        parse_array(elem, s, pos) == Ok::<(Seq<T>, int), ReadError>(
            (items, pos + array_bytes(ser, items).len()),
        ),
{
    let prefix = leb128::encoding(items.len());
    lemma_holds_at_split(s, pos, prefix, items_bytes(ser, items));
    leb128::lemma_decoding_of_encoding(s, pos, items.len() as u64);
    lemma_parse_items(elem, ser, s, pos + prefix.len(), items, Seq::empty());
    assert(Seq::<T>::empty() + items =~= items);
}

pub open spec fn bool_parser() -> spec_fn(Seq<u8>, int) -> Result<(bool, int), ReadError> {
    |s: Seq<u8>, p: int| parse_bool(s, p)
}

pub open spec fn bool_ser() -> spec_fn(bool) -> Seq<u8> {
    |b: bool| seq![bool_byte(b)]
}

pub open spec fn u64_parser() -> spec_fn(Seq<u8>, int) -> Result<(u64, int), ReadError> {
    |s: Seq<u8>, p: int| parse_u64(s, p)
}

pub open spec fn u64_ser() -> spec_fn(u64) -> Seq<u8> {
    |v: u64| u64_bytes(v)
}

pub open spec fn string_parser() -> spec_fn(Seq<u8>, int) -> Result<(Seq<char>, int), ReadError> {
    |s: Seq<u8>, p: int| parse_string(s, p)
}

pub open spec fn string_ser() -> spec_fn(Seq<char>) -> Seq<u8> {
    |t: Seq<char>| string_bytes(t)
}

/// The texts of a sequence of strings.
pub open spec fn texts(items: Seq<String>) -> Seq<Seq<char>> {
    items.map_values(|t: String| t@)
}

pub proof fn lemma_string_bounds(s: Seq<u8>, pos: int)
    ensures
        parse_string(s, pos) matches Ok((t, p)) ==> 0 <= pos < p <= s.len(),
{
    lemma_blob_bounds(s, pos);
}

/// A successful read by `elem` starts inside the buffer and ends inside it, not before its start.
pub open spec fn advancing<T>(
    elem: spec_fn(Seq<u8>, int) -> Result<(T, int), ReadError>,
    s: Seq<u8>,
) -> bool {
    forall|q: int|
        match #[trigger] elem(s, q) {
            Ok((t, p)) => 0 <= q <= p <= s.len(),
            Err(_) => true,
        }
}

pub proof fn lemma_items_bounds<T>(
    elem: spec_fn(Seq<u8>, int) -> Result<(T, int), ReadError>,
    s: Seq<u8>,
    pos: int,
    n: nat,
    acc: Seq<T>,
)
    requires
        advancing(elem, s),
        0 <= pos <= s.len(),
    ensures
        parse_items(elem, s, pos, n, acc) matches Ok((v, p)) ==> pos <= p <= s.len(),
    decreases n,
{
    if n > 0 {
        match elem(s, pos) {
            Ok((t, p)) => {
                lemma_items_bounds(elem, s, p, (n - 1) as nat, acc.push(t));
            },
            Err(_) => {},
        }
    }
}

pub proof fn lemma_array_bounds<T>(
    elem: spec_fn(Seq<u8>, int) -> Result<(T, int), ReadError>,
    s: Seq<u8>,
    pos: int,
)
    requires
        advancing(elem, s),
    ensures
        parse_array(elem, s, pos) matches Ok((v, p)) ==> 0 <= pos < p <= s.len(),
{
    leb128::lemma_decoding_bounds(s, pos);
    match leb128::decoding(s, pos) {
        Ok((n, p)) => {
            lemma_items_bounds(elem, s, p, n as nat, Seq::empty());
        },
        Err(_) => {},
    }
}

pub proof fn lemma_element_parsers_advance(s: Seq<u8>)
    ensures
        advancing(bool_parser(), s),
        advancing(u64_parser(), s),
        advancing(string_parser(), s),
{
    assert forall|q: int|
        match #[trigger] string_parser()(s, q) {
            Ok((t, p)) => 0 <= q <= p <= s.len(),
            Err(_) => true,
        } by {
        lemma_string_bounds(s, q);
    }
}

pub fn put_u8(out: &mut Vec<u8>, v: u8)
    ensures
        final(out)@ == old(out)@ + seq![v],
{
    out.push(v);
    assert(out@ == old(out)@ + seq![v]);
}

pub fn put_bool(out: &mut Vec<u8>, b: bool)
    ensures
        final(out)@ == old(out)@ + seq![bool_byte(b)],
{
    put_u8(out, if b { 1 } else { 0 });
}

pub fn put_u16(out: &mut Vec<u8>, v: u16)
    ensures
        final(out)@ == old(out)@ + u16_bytes(v),
{
    out.push((v / 0x100) as u8);
    out.push((v % 0x100) as u8);
    assert(out@ == old(out)@ + u16_bytes(v));
}

pub fn put_u32(out: &mut Vec<u8>, v: u32)
    ensures
        final(out)@ == old(out)@ + u32_bytes(v),
{
    out.push((v / 0x100_0000) as u8);
    out.push((v / 0x1_0000 % 0x100) as u8);
    out.push((v / 0x100 % 0x100) as u8);
    out.push((v % 0x100) as u8);
    assert(out@ == old(out)@ + u32_bytes(v));
}

pub fn put_u64(out: &mut Vec<u8>, v: u64)
    ensures
        final(out)@ == old(out)@ + u64_bytes(v),
{
    let ghost start = out@;
    let hi: u32 = (v / 0x1_0000_0000) as u32;
    let lo: u32 = (v % 0x1_0000_0000) as u32;
    put_u32(out, hi);
    put_u32(out, lo);
    assert(out@ == start + (u32_bytes(hi) + u32_bytes(lo)));
}

/// Appends `bytes` as they are.
pub fn put_raw(out: &mut Vec<u8>, bytes: &[u8])
    ensures
        final(out)@ == old(out)@ + bytes@,
{
    let mut i: usize = 0;
    while i < bytes.len()
        invariant
            i <= bytes@.len(),
            out@ == old(out)@ + bytes@.subrange(0, i as int),
        decreases bytes@.len() - i,
    {
        out.push(bytes[i]);
        i += 1;
        assert(out@ == old(out)@ + bytes@.subrange(0, i as int));
    }
    assert(bytes@.subrange(0, i as int) == bytes@);
}

pub fn put_blob(out: &mut Vec<u8>, bytes: &[u8])
    ensures
        final(out)@ == old(out)@ + blob_bytes(bytes@),
{
    let ghost start = out@;
    leb128::write(out, bytes.len() as u64);
    put_raw(out, bytes);
    assert(out@ == start + (leb128::encoding(bytes@.len()) + bytes@));
}

pub fn put_string(out: &mut Vec<u8>, text: &str)
    ensures
        final(out)@ == old(out)@ + string_bytes(text@),
{
    put_blob(out, text.as_bytes());
}

pub fn read_u8(buf: &[u8], pos: usize) -> (res: Result<(u8, usize), ReadError>)
    ensures
        agrees(res, parse_u8(buf@, pos as int)),
{
    if pos < buf.len() {
        Ok((buf[pos], pos + 1))
    } else {
        Err(ReadError::NeedMoreData)
    }
}

pub fn read_bool(buf: &[u8], pos: usize) -> (res: Result<(bool, usize), ReadError>)
    ensures
        agrees(res, parse_bool(buf@, pos as int)),
{
    if pos < buf.len() {
        Ok((buf[pos] == 1, pos + 1))
    } else {
        Err(ReadError::NeedMoreData)
    }
}

pub fn read_u16(buf: &[u8], pos: usize) -> (res: Result<(u16, usize), ReadError>)
    ensures
        agrees(res, parse_u16(buf@, pos as int)),
{
    if buf.len() < 2 || pos > buf.len() - 2 {
        return Err(ReadError::NeedMoreData);
    }
    let v: u16 = (buf[pos] as u16) * 0x100 + (buf[pos + 1] as u16);
    Ok((v, pos + 2))
}

pub fn read_u32(buf: &[u8], pos: usize) -> (res: Result<(u32, usize), ReadError>)
    ensures
        agrees(res, parse_u32(buf@, pos as int)),
{
    if buf.len() < 4 || pos > buf.len() - 4 {
        return Err(ReadError::NeedMoreData);
    }
    let v: u32 = (buf[pos] as u32) * 0x100_0000 + (buf[pos + 1] as u32) * 0x1_0000 + (buf[pos
        + 2] as u32) * 0x100 + (buf[pos + 3] as u32);
    Ok((v, pos + 4))
}

pub fn read_u64(buf: &[u8], pos: usize) -> (res: Result<(u64, usize), ReadError>)
    ensures
        agrees(res, parse_u64(buf@, pos as int)),
{
    if buf.len() < 8 || pos > buf.len() - 8 {
        return Err(ReadError::NeedMoreData);
    }
    let (hi, mid) = read_u32(buf, pos)?;
    let (lo, end) = read_u32(buf, mid)?;
    Ok(((hi as u64) * 0x1_0000_0000 + (lo as u64), end))
}

pub fn read_blob(buf: &[u8], pos: usize) -> (res: Result<(Vec<u8>, usize), ReadError>)
    ensures
        agrees(res, parse_blob(buf@, pos as int)),
{
    proof {
        leb128::lemma_decoding_bounds(buf@, pos as int);
    }
    let (len, p) = leb128::read(buf, pos)?;
    if len > (buf.len() - p) as u64 {
        return Err(ReadError::NeedMoreData);
    }
    let end: usize = p + len as usize;
    let bytes = slice_to_vec(slice_subrange(buf, p, end));
    Ok((bytes, end))
}

/// `String::from_utf8` of std: the string whose UTF-8 encoding is `bytes`, and none exactly when
/// `bytes` is not UTF-8.
#[verifier::external_body]
fn string_from_utf8(bytes: Vec<u8>) -> (res: Option<String>)
    ensures
        res is Some <==> valid_utf8(bytes@),
        res matches Some(text) ==> text@ == decode_utf8(bytes@),
{
    match String::from_utf8(bytes) {
        Ok(text) => Some(text),
        Err(_) => None,
    }
}

pub fn read_string(buf: &[u8], pos: usize) -> (res: Result<(String, usize), ReadError>)
    ensures
        agrees(res, parse_string(buf@, pos as int)),
{
    let (bytes, end) = read_blob(buf, pos)?;
    match string_from_utf8(bytes) {
        Some(text) => Ok((text, end)),
        None => Err(ReadError::MalformedFrame(FrameError::InvalidUtf8)),
    }
}

pub fn put_bools(out: &mut Vec<u8>, items: &Vec<bool>)
    ensures
        final(out)@ == old(out)@ + array_bytes(bool_ser(), items@),
{
    let ghost start = out@;
    let ghost prefix = leb128::encoding(items@.len());
    leb128::write(out, items.len() as u64);
    let mut i: usize = 0;
    assert(items_bytes(bool_ser(), items@.take(0)) =~= Seq::<u8>::empty());
    while i < items.len()
        invariant
            i <= items@.len(),
            out@ == start + prefix + items_bytes(bool_ser(), items@.take(i as int)),
        decreases items@.len() - i,
    {
        proof {
            lemma_items_bytes_push(bool_ser(), items@.take(i as int), items@[i as int]);
            assert(items@.take(i as int).push(items@[i as int]) =~= items@.take(i + 1));
        }
        put_bool(out, items[i]);
        i += 1;
    }
    assert(items@.take(i as int) =~= items@);
    assert(start + prefix + items_bytes(bool_ser(), items@) == start + (prefix + items_bytes(
        bool_ser(),
        items@,
    )));
}

pub fn put_u64s(out: &mut Vec<u8>, items: &Vec<u64>)
    ensures
        final(out)@ == old(out)@ + array_bytes(u64_ser(), items@),
{
    let ghost start = out@;
    let ghost prefix = leb128::encoding(items@.len());
    leb128::write(out, items.len() as u64);
    let mut i: usize = 0;
    assert(items_bytes(u64_ser(), items@.take(0)) =~= Seq::<u8>::empty());
    while i < items.len()
        invariant
            i <= items@.len(),
            out@ == start + prefix + items_bytes(u64_ser(), items@.take(i as int)),
        decreases items@.len() - i,
    {
        proof {
            lemma_items_bytes_push(u64_ser(), items@.take(i as int), items@[i as int]);
            assert(items@.take(i as int).push(items@[i as int]) =~= items@.take(i + 1));
        }
        put_u64(out, items[i]);
        i += 1;
    }
    assert(items@.take(i as int) =~= items@);
    assert(start + prefix + items_bytes(u64_ser(), items@) == start + (prefix + items_bytes(
        u64_ser(),
        items@,
    )));
}

pub fn put_strings(out: &mut Vec<u8>, items: &Vec<String>)
    ensures
        final(out)@ == old(out)@ + array_bytes(string_ser(), texts(items@)),
{
    let ghost start = out@;
    let ghost all = texts(items@);
    let ghost prefix = leb128::encoding(all.len());
    leb128::write(out, items.len() as u64);
    let mut i: usize = 0;
    assert(items_bytes(string_ser(), all.take(0)) =~= Seq::<u8>::empty());
    while i < items.len()
        invariant
            i <= items@.len(),
            all == texts(items@),
            out@ == start + prefix + items_bytes(string_ser(), all.take(i as int)),
        decreases items@.len() - i,
    {
        proof {
            lemma_items_bytes_push(string_ser(), all.take(i as int), all[i as int]);
            assert(all.take(i as int).push(all[i as int]) =~= all.take(i + 1));
        }
        put_string(out, items[i].as_str());
        i += 1;
    }
    assert(all.take(i as int) =~= all);
    assert(start + prefix + items_bytes(string_ser(), all) == start + (prefix + items_bytes(
        string_ser(),
        all,
    )));
}

pub fn read_bools(buf: &[u8], pos: usize) -> (res: Result<(Vec<bool>, usize), ReadError>)
    ensures
        agrees(res, parse_array(bool_parser(), buf@, pos as int)),
{
    let (n, start) = leb128::read(buf, pos)?;
    let mut items: Vec<bool> = Vec::new();
    let mut cur: usize = start;
    let mut i: u64 = 0;
    while i < n
        invariant
            i <= n,
            parse_array(bool_parser(), buf@, pos as int) == parse_items(
                bool_parser(),
                buf@,
                cur as int,
                (n - i) as nat,
                items@,
            ),
        decreases n - i,
    {
        let (item, next) = read_bool(buf, cur)?;
        items.push(item);
        cur = next;
        i += 1;
    }
    Ok((items, cur))
}

pub fn read_u64s(buf: &[u8], pos: usize) -> (res: Result<(Vec<u64>, usize), ReadError>)
    ensures
        agrees(res, parse_array(u64_parser(), buf@, pos as int)),
{
    let (n, start) = leb128::read(buf, pos)?;
    let mut items: Vec<u64> = Vec::new();
    let mut cur: usize = start;
    let mut i: u64 = 0;
    while i < n
        invariant
            i <= n,
            parse_array(u64_parser(), buf@, pos as int) == parse_items(
                u64_parser(),
                buf@,
                cur as int,
                (n - i) as nat,
                items@,
            ),
        decreases n - i,
    {
        let (item, next) = read_u64(buf, cur)?;
        items.push(item);
        cur = next;
        i += 1;
    }
    Ok((items, cur))
}

pub fn read_strings(buf: &[u8], pos: usize) -> (res: Result<(Vec<String>, usize), ReadError>)
    ensures
        match (res, parse_array(string_parser(), buf@, pos as int)) {
            (Ok((v, p)), Ok((m, q))) => texts(v@) == m && p as int == q,
            (Err(e), Err(f)) => e == f,
            _ => false,
        },
{
    let (n, start) = leb128::read(buf, pos)?;
    let mut items: Vec<String> = Vec::new();
    let mut cur: usize = start;
    let mut i: u64 = 0;
    assert(texts(items@) =~= Seq::<Seq<char>>::empty());
    while i < n
        invariant
            i <= n,
            parse_array(string_parser(), buf@, pos as int) == parse_items(
                string_parser(),
                buf@,
                cur as int,
                (n - i) as nat,
                texts(items@),
            ),
        decreases n - i,
    {
        let (item, next) = read_string(buf, cur)?;
        let ghost before = texts(items@);
        items.push(item);
        assert(texts(items@) =~= before.push(item@));
        cur = next;
        i += 1;
    }
    Ok((items, cur))
}

} // verus!
