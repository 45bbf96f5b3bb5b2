//! Framing: messages in and out of a growable byte buffer.

use crate::error::{Error, FrameError, ReadError};
use crate::packets::{
    lemma_packet_bounds, packet_bytes, packets_model, parse_packet, try_decode, PacketModel,
    ReceivedPacket,
};
use bytes::BytesMut;
use vstd::prelude::*;

verus! {

#[verifier::external_type_specification]
#[verifier::external_body]
pub struct ExBytesMut(BytesMut);

/// The most bytes that a buffer is made to hold: what the machine can allocate in one piece.
pub const MAX_BUFFER: usize = isize::MAX as usize;

/// The bytes that a buffer holds, the next one to be read first.
pub uninterp spec fn buffered(buf: BytesMut) -> Seq<u8>;

/// `BytesMut::len`: how many bytes the buffer holds.
#[verifier::external_body]
fn buffer_len(buf: &BytesMut) -> (n: usize)
    ensures
        n == buffered(*buf).len(),
{
    buf.len()
}

/// The buffer as a slice (`Deref` of `BytesMut`): the bytes it holds, in order.
#[verifier::external_body]
fn buffer_bytes(buf: &BytesMut) -> (s: &[u8])
    ensures
        s@ == buffered(*buf),
{
    &buf[..]
}

/// `Buf::advance` of `BytesMut`: drops the first `cnt` bytes. It panics where the buffer holds
/// fewer, which the precondition rules out.
#[verifier::external_body]
fn buffer_advance(buf: &mut BytesMut, cnt: usize)
    requires
        cnt <= buffered(*old(buf)).len(),
    ensures
        buffered(*final(buf)) == buffered(*old(buf)).skip(cnt as int),
{
    bytes::Buf::advance(buf, cnt)
}

/// `BytesMut::extend_from_slice`: appends `extend`. It panics where the new length is beyond
/// what can be allocated, which the precondition rules out.
#[verifier::external_body]
fn buffer_extend(buf: &mut BytesMut, extend: &[u8])
    requires
        buffered(*old(buf)).len() + extend@.len() <= isize::MAX,
    ensures
        buffered(*final(buf)) == buffered(*old(buf)) + extend@,
{
    buf.extend_from_slice(extend)
}

/// What reading message after message finds in `s`: the messages, the bytes that are left,
/// and the error on which the reading stopped, if it was one. Reading stops where the bytes
/// that are left are no complete message.
#[verifier::opaque]
pub open spec fn parse_all(s: Seq<u8>) -> (Seq<PacketModel>, Seq<u8>, Option<FrameError>)
    decreases s.len(),
{
    match parse_packet(s, 0) {
        Ok((m, n)) => if 0 < n <= s.len() {
            let (more, rest, e) = parse_all(s.skip(n));
            (seq![m] + more, rest, e)
        } else {
            (Seq::empty(), s, None)
        },
        Err(ReadError::NeedMoreData) => (Seq::empty(), s, None),
        Err(ReadError::MalformedFrame(f)) => (Seq::empty(), s, Some(f)),
    }
}

/// One step of `parse_all`, by what the first message is.
pub proof fn lemma_parse_all_step(s: Seq<u8>)
    ensures
        match parse_packet(s, 0) {
            Ok((m, n)) => 0 < n <= s.len() && parse_all(s) == (
                seq![m] + parse_all(s.skip(n)).0,
                parse_all(s.skip(n)).1,
                parse_all(s.skip(n)).2,
            ),
            Err(ReadError::NeedMoreData) => parse_all(s) == (
                Seq::<PacketModel>::empty(),
                s,
                None::<FrameError>,
            ),
            Err(ReadError::MalformedFrame(f)) => parse_all(s) == (
                Seq::<PacketModel>::empty(),
                s,
                Some(f),
            ),
        },
{
    reveal_with_fuel(parse_all, 1);
    lemma_packet_bounds(s, 0);
}

/// The error that a malformed frame is.
pub open spec fn malformed(reason: FrameError) -> Error {
    Error::MalformedFrame { reason }
}

/// The codec of the protocol on a byte buffer.
#[derive(Clone, Copy, Debug)]
pub struct NTCodec;

impl NTCodec {
    /// Appends `item` to `dst`.
    ///
    /// A message that the wire format cannot carry is refused with `InvalidRpcDefinition`, and
    /// one that would make the buffer longer than the machine can allocate with
    /// `LengthOverflow`; `dst` is then unchanged.
    pub fn encode(&mut self, item: &ReceivedPacket, dst: &mut BytesMut) -> (res: Result<(), Error>)
        ensures
            match res {
                Ok(_) => item.encodable() && buffered(*final(dst)) == buffered(*old(dst))
                    + packet_bytes(item@),
                Err(e) => buffered(*final(dst)) == buffered(*old(dst)) && if !item.encodable() {
                    e == malformed(FrameError::InvalidRpcDefinition)
                } else {
                    e == malformed(FrameError::LengthOverflow) && buffered(*old(dst)).len()
                        + packet_bytes(item@).len() > MAX_BUFFER
                },
            },
    {
        if !item.is_encodable() {
            return Err(Error::MalformedFrame { reason: FrameError::InvalidRpcDefinition });
        }
        let mut bytes: Vec<u8> = Vec::new();
        item.serialize(&mut bytes);
        assert(bytes@ =~= packet_bytes(item@));
        let held: usize = buffer_len(dst);
        if held > MAX_BUFFER || bytes.len() > MAX_BUFFER - held {
            return Err(Error::MalformedFrame { reason: FrameError::LengthOverflow });
        }
        buffer_extend(dst, bytes.as_slice());
        Ok(())
    }

    /// Takes the first message out of `src`.
    ///
    /// Where `src` ends inside a message the result is `None` and nothing is consumed. Bytes
    /// that no message starts with are an error, and nothing is consumed either.
    pub fn decode(&mut self, src: &mut BytesMut) -> (res: Result<Option<ReceivedPacket>, Error>)
        ensures
            match parse_packet(buffered(*old(src)), 0) {
                Ok((m, n)) => res matches Ok(Some(p)) && p@ == m && 0 < n <= buffered(
                    *old(src),
                ).len() && buffered(*final(src)) == buffered(*old(src)).skip(n),
                Err(ReadError::NeedMoreData) => res matches Ok(None) && buffered(*final(src))
                    == buffered(*old(src)),
                Err(ReadError::MalformedFrame(f)) => res == Err::<Option<ReceivedPacket>, Error>(
                    malformed(f),
                ) && buffered(*final(src)) == buffered(*old(src)),
            },
    {
        proof {
            lemma_packet_bounds(buffered(*src), 0);
        }
        let decoded = try_decode(buffer_bytes(src), 0);
        match decoded {
            Ok((packet, end)) => {
                buffer_advance(src, end);
                Ok(Some(packet))
            },
            Err(ReadError::NeedMoreData) => Ok(None),
            Err(ReadError::MalformedFrame(f)) => Err(Error::MalformedFrame { reason: f }),
        }
    }
}

impl NTCodec {
    /// The message as the bytes of one frame.
    pub fn encode_frame(&mut self, item: &ReceivedPacket) -> (res: Result<Vec<u8>, Error>)
        ensures
            match res {
                Ok(bytes) => item.encodable() && bytes@ == packet_bytes(item@),
                Err(e) => !item.encodable() && e == malformed(FrameError::InvalidRpcDefinition),
            },
    {
        if !item.is_encodable() {
            return Err(Error::MalformedFrame { reason: FrameError::InvalidRpcDefinition });
        }
        let mut bytes: Vec<u8> = Vec::new();
        item.serialize(&mut bytes);
        assert(bytes@ =~= packet_bytes(item@));
        Ok(bytes)
    }

    /// Appends the bytes of an inbound frame to `src`. A frame that would make the buffer
    /// longer than the machine can allocate is refused, and `src` is unchanged.
    pub fn feed(&mut self, src: &mut BytesMut, frame: &[u8]) -> (res: Result<(), Error>)
        ensures
            match res {
                Ok(_) => buffered(*final(src)) == buffered(*old(src)) + frame@,
                Err(e) => e == malformed(FrameError::LengthOverflow) && buffered(*final(src)) == buffered(
                    *old(src),
                ) && buffered(*old(src)).len() + frame@.len() > MAX_BUFFER,
            },
    {
        let held: usize = buffer_len(src);
        if held > MAX_BUFFER || frame.len() > MAX_BUFFER - held {
            return Err(Error::MalformedFrame { reason: FrameError::LengthOverflow });
        }
        buffer_extend(src, frame);
        Ok(())
    }

    fn decode_next(&mut self, src: &mut BytesMut) -> (res: Result<Option<ReceivedPacket>, Error>)
        ensures
            match res {
                Ok(Some(p)) => parse_all(buffered(*old(src))) == (
                    seq![p@] + parse_all(buffered(*final(src))).0,
                    parse_all(buffered(*final(src))).1,
                    parse_all(buffered(*final(src))).2,
                ) && buffered(*final(src)).len() < buffered(*old(src)).len(),
                Ok(None) => parse_all(buffered(*old(src))) == (
                    Seq::<PacketModel>::empty(),
                    buffered(*old(src)),
                    None::<FrameError>,
                ) && buffered(*final(src)) == buffered(*old(src)),
                Err(e) => exists|f: FrameError|
                    e == malformed(f) && parse_all(buffered(*old(src))) == (
                        Seq::<PacketModel>::empty(),
                        buffered(*old(src)),
                        Some(f),
                    ) && buffered(*final(src)) == buffered(*old(src)),
            },
    {
        proof {
            lemma_parse_all_step(buffered(*src));
        }
        self.decode(src)
    }

    /// Takes every complete message out of `src`, in order, and stops at the first bytes that
    /// are no complete message: they stay in `src`. If they can be no message at all, the
    /// error says why.
    pub fn decode_all(&mut self, src: &mut BytesMut) -> (res: (Vec<ReceivedPacket>, Option<Error>))
        ensures
            packets_model(res.0@) == parse_all(buffered(*old(src))).0,
            buffered(*final(src)) == parse_all(buffered(*old(src))).1,
            res.1 == match parse_all(buffered(*old(src))).2 {
                Some(f) => Some(malformed(f)),
                None => None,
            },
    {
        let ghost whole = parse_all(buffered(*src));
        let mut packets: Vec<ReceivedPacket> = Vec::new();
        assert(packets_model(packets@) + whole.0 =~= whole.0);
        loop
            invariant
                whole == parse_all(buffered(*old(src))),
                whole.0 == packets_model(packets@) + parse_all(buffered(*src)).0,
                whole.1 == parse_all(buffered(*src)).1,
                whole.2 == parse_all(buffered(*src)).2,
            decreases buffered(*src).len(),
        {
            let ghost before = buffered(*src);
            let ghost done = packets_model(packets@);
            match self.decode_next(src) {
                Ok(Some(packet)) => {
                    let ghost m = packet@;
                    let ghost more = parse_all(buffered(*src)).0;
                    packets.push(packet);
                    assert(packets_model(packets@) =~= done.push(m));
                    assert(done.push(m) + more =~= done + (seq![m] + more));
                },
                Ok(None) => {
                    assert(done + Seq::<PacketModel>::empty() =~= done);
                    return (packets, None);
                },
                Err(f) => {
                    assert(done + Seq::<PacketModel>::empty() =~= done);
                    return (packets, Some(f));
                },
            }
        }
    }
}

} // verus!
