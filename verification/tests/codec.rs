use bytes::BytesMut;
use nt::codec::NTCodec;
use nt::error::{Error, FrameError, ReadError};
use nt::leb128;
use nt::packets::{
    try_decode, ClearAllEntries, ClientHello, EntryAssignment, EntryDelete, EntryFlagsUpdate,
    EntryUpdate, NTVersion, ProtocolVersionUnsupported, ReceivedPacket, RpcExecute, RpcResponse,
    ServerHello,
};
use nt::types::{
    EntryType, EntryValue, Parameter, PlainValue, RPCDefinitionData, RpcDefinition, RpcResult,
};
use nt::wire;

fn encode(packet: &ReceivedPacket) -> Vec<u8> {
    let mut out = Vec::new();
    packet.serialize(&mut out);
    out
}

fn sample_packets() -> Vec<ReceivedPacket> {
    let definition = RpcDefinition::V1(RPCDefinitionData {
        procedure_name: "sum".to_string(),
        parameters: vec![
            Parameter {
                parameter_type: EntryType::Double,
                parameter_name: "a".to_string(),
                parameter_default: PlainValue::Double(1.5f64.to_bits()),
            },
            Parameter {
                parameter_type: EntryType::StringArray,
                parameter_name: "names".to_string(),
                parameter_default: PlainValue::StringArray(vec!["x".to_string(), "".to_string()]),
            },
        ],
        results: vec![RpcResult {
            result_type: EntryType::Boolean,
            result_name: "ok".to_string(),
        }],
    });
    let values = vec![
        EntryValue::Boolean(true),
        EntryValue::Boolean(false),
        EntryValue::Double(3.5f64.to_bits()),
        EntryValue::String("héllo".to_string()),
        EntryValue::RawData(vec![0, 1, 2, 255]),
        EntryValue::BooleanArray(vec![true, false, true]),
        EntryValue::DoubleArray(vec![0.25f64.to_bits(), (-1.0f64).to_bits()]),
        EntryValue::StringArray(vec!["a".to_string(), "bc".to_string()]),
        EntryValue::RpcDefinition(RpcDefinition::V0),
        EntryValue::RpcDefinition(definition),
    ];
    let mut packets = vec![
        ReceivedPacket::KeepAlive,
        ReceivedPacket::ClientHello(ClientHello::new(NTVersion::V3, "c1".to_string())),
        ReceivedPacket::ProtocolVersionUnsupported(ProtocolVersionUnsupported::new(NTVersion::V3)),
        ReceivedPacket::ServerHelloComplete,
        ReceivedPacket::ServerHello(ServerHello::new(0, "srv".to_string())),
        ReceivedPacket::ClientHelloComplete,
        ReceivedPacket::EntryFlagsUpdate(EntryFlagsUpdate::new(7, 1)),
        ReceivedPacket::EntryDelete(EntryDelete::new(0x1234)),
        ReceivedPacket::ClearAllEntries(ClearAllEntries::new()),
        ReceivedPacket::ClearAllEntries(ClearAllEntries { magic: 0 }),
        ReceivedPacket::RpcExecute(RpcExecute::new(7, 1, vec![1, 2, 3])),
        ReceivedPacket::RpcResponse(RpcResponse::new(7, 1, vec![3, 2, 1])),
    ];
    for (i, value) in values.into_iter().enumerate() {
        packets.push(ReceivedPacket::EntryAssignment(EntryAssignment::new(
            format!("/entry/{}", i),
            value.entry_type(),
            i as u16,
            0xFFFE,
            1,
            value.clone(),
        )));
        packets.push(ReceivedPacket::EntryUpdate(EntryUpdate::new(
            i as u16,
            0,
            value.entry_type(),
            value,
        )));
    }
    packets
}

#[test]
fn leb128_writes_the_shortest_encoding() {
    let cases: Vec<(u64, Vec<u8>)> = vec![
        (0, vec![0x00]),
        (1, vec![0x01]),
        (127, vec![0x7f]),
        (128, vec![0x80, 0x01]),
        (300, vec![0xac, 0x02]),
        (624485, vec![0xe5, 0x8e, 0x26]),
        (
            u64::MAX,
            vec![0xff, 0xff, 0xff, 0xff, 0xff, 0xff, 0xff, 0xff, 0xff, 0x01],
        ),
    ];
    for (value, bytes) in cases {
        let mut out = vec![0xaa];
        let n = leb128::write(&mut out, value);
        assert_eq!(n, bytes.len());
        assert_eq!(&out[1..], &bytes[..]);
        assert_eq!(leb128::read(&out, 1), Ok((value, out.len())));
    }
}

#[test]
fn leb128_low_bits() {
    assert_eq!(leb128::low_bits_of_byte(0xff), 0x7f);
    assert_eq!(leb128::low_bits_of_byte(0x80), 0x00);
    assert_eq!(leb128::low_bits_of_byte(0x25), 0x25);
    assert_eq!(leb128::low_bits_of_u64(0x1234_5678_9abc_deff), 0x7f);
    assert_eq!(leb128::low_bits_of_u64(0x180), 0x00);
}

#[test]
fn leb128_read_needs_all_bytes() {
    assert_eq!(leb128::read(&[], 0), Err(ReadError::NeedMoreData));
    assert_eq!(leb128::read(&[0x80], 0), Err(ReadError::NeedMoreData));
    assert_eq!(leb128::read(&[0x80, 0x80], 0), Err(ReadError::NeedMoreData));
    assert_eq!(leb128::read(&[0x01], 1), Err(ReadError::NeedMoreData));
    assert_eq!(leb128::read(&[0x01], 5), Err(ReadError::NeedMoreData));
}

#[test]
fn leb128_read_rejects_more_than_64_bits() {
    let mut bytes = vec![0xff; 9];
    bytes.push(0x02);
    assert_eq!(
        leb128::read(&bytes, 0),
        Err(ReadError::MalformedFrame(FrameError::LengthOverflow))
    );
    let mut bytes = vec![0x80; 9];
    bytes.push(0x81);
    assert_eq!(
        leb128::read(&bytes, 0),
        Err(ReadError::MalformedFrame(FrameError::LengthOverflow))
    );
}

#[test]
fn leb128_read_takes_longer_encodings() {
    assert_eq!(leb128::read(&[0x80, 0x00], 0), Ok((0, 2)));
    assert_eq!(leb128::read(&[0x81, 0x80, 0x00, 0x55], 0), Ok((1, 3)));
}

#[test]
fn integers_are_big_endian() {
    let mut out = Vec::new();
    wire::put_u16(&mut out, 0x0300);
    wire::put_u32(&mut out, 0xD06C_B27A);
    wire::put_u64(&mut out, 0x0102_0304_0506_0708);
    assert_eq!(
        out,
        vec![0x03, 0x00, 0xd0, 0x6c, 0xb2, 0x7a, 1, 2, 3, 4, 5, 6, 7, 8]
    );
    assert_eq!(wire::read_u16(&out, 0), Ok((0x0300, 2)));
    assert_eq!(wire::read_u32(&out, 2), Ok((0xD06C_B27A, 6)));
    assert_eq!(wire::read_u64(&out, 6), Ok((0x0102_0304_0506_0708, 14)));
    assert_eq!(wire::read_u64(&out, 7), Err(ReadError::NeedMoreData));
    assert_eq!(wire::read_u32(&out, 11), Err(ReadError::NeedMoreData));
    assert_eq!(wire::read_u16(&out, 13), Err(ReadError::NeedMoreData));
}

#[test]
fn strings_carry_their_length_and_utf8() {
    let mut out = Vec::new();
    wire::put_string(&mut out, "héllo");
    assert_eq!(out, vec![6, b'h', 0xc3, 0xa9, b'l', b'l', b'o']);
    assert_eq!(wire::read_string(&out, 0), Ok(("héllo".to_string(), 7)));
    assert_eq!(wire::read_string(&out[..6], 0), Err(ReadError::NeedMoreData));
}

#[test]
fn strings_that_are_not_utf8_are_malformed() {
    assert_eq!(
        wire::read_string(&[2, 0xc3, 0x28], 0),
        Err(ReadError::MalformedFrame(FrameError::InvalidUtf8))
    );
    assert_eq!(
        wire::read_string(&[1, 0xff], 0),
        Err(ReadError::MalformedFrame(FrameError::InvalidUtf8))
    );
    let bytes = vec![0x10, 3, b'/', 0xff, b'x', 0x00, 0, 1, 0, 1, 0, 1];
    assert_eq!(
        try_decode(&bytes, 0),
        Err(ReadError::MalformedFrame(FrameError::InvalidUtf8))
    );
}

#[test]
fn only_the_byte_one_is_true() {
    assert_eq!(wire::read_bool(&[1], 0), Ok((true, 1)));
    assert_eq!(wire::read_bool(&[0], 0), Ok((false, 1)));
    assert_eq!(wire::read_bool(&[2], 0), Ok((false, 1)));
    assert_eq!(wire::read_bool(&[], 0), Err(ReadError::NeedMoreData));
}

#[test]
fn entry_type_tags() {
    let tags = [
        (EntryType::Boolean, 0x00u8),
        (EntryType::Double, 0x01),
        (EntryType::String, 0x02),
        (EntryType::RawData, 0x03),
        (EntryType::BooleanArray, 0x10),
        (EntryType::DoubleArray, 0x11),
        (EntryType::StringArray, 0x12),
        (EntryType::RpcDefinition, 0x20),
    ];
    for (ty, tag) in tags {
        assert_eq!(ty.to_tag(), tag);
        assert_eq!(EntryType::from_tag(tag), Some(ty));
        assert_eq!(EntryType::deserialize(&[tag], 0), Ok((ty, 1)));
    }
    assert_eq!(EntryType::from_tag(0x04), None);
    assert_eq!(
        EntryType::deserialize(&[0x21], 0),
        Err(ReadError::MalformedFrame(FrameError::UnknownEntryType(0x21)))
    );
}

#[test]
fn messages_have_the_layout_of_the_table() {
    assert_eq!(encode(&ReceivedPacket::KeepAlive), vec![0x00]);
    assert_eq!(
        encode(&ReceivedPacket::ClientHello(ClientHello::new(
            NTVersion::V3,
            "c1".to_string()
        ))),
        vec![0x01, 0x03, 0x00, 2, b'c', b'1']
    );
    assert_eq!(
        encode(&ReceivedPacket::ProtocolVersionUnsupported(
            ProtocolVersionUnsupported::new(NTVersion::V3)
        )),
        vec![0x02, 0x03, 0x00]
    );
    assert_eq!(encode(&ReceivedPacket::ServerHelloComplete), vec![0x03]);
    assert_eq!(
        encode(&ReceivedPacket::ServerHello(ServerHello::new(
            0,
            "srv".to_string()
        ))),
        vec![0x04, 0x00, 3, b's', b'r', b'v']
    );
    assert_eq!(encode(&ReceivedPacket::ClientHelloComplete), vec![0x05]);
    assert_eq!(
        encode(&ReceivedPacket::EntryFlagsUpdate(EntryFlagsUpdate::new(
            0x0102, 1
        ))),
        vec![0x12, 0x01, 0x02, 0x01]
    );
    assert_eq!(
        encode(&ReceivedPacket::EntryDelete(EntryDelete::new(0x0102))),
        vec![0x13, 0x01, 0x02]
    );
    assert_eq!(
        encode(&ReceivedPacket::ClearAllEntries(ClearAllEntries::new())),
        vec![0x14, 0xd0, 0x6c, 0xb2, 0x7a]
    );
    assert_eq!(
        encode(&ReceivedPacket::RpcExecute(RpcExecute::new(
            7,
            0x0102,
            vec![1, 2, 3]
        ))),
        vec![0x20, 0, 7, 1, 2, 3, 1, 2, 3]
    );
    assert_eq!(
        encode(&ReceivedPacket::RpcResponse(RpcResponse::new(
            7,
            0x0102,
            vec![]
        ))),
        vec![0x21, 0, 7, 1, 2, 0]
    );
}

#[test]
fn create_request_for_a_double_has_its_exact_bytes() {
    let packet = ReceivedPacket::EntryAssignment(EntryAssignment::new(
        "/x".to_string(),
        EntryType::Double,
        0xFFFF,
        1,
        0,
        EntryValue::Double(3.5f64.to_bits()),
    ));
    assert_eq!(
        encode(&packet),
        vec![
            0x10, 2, b'/', b'x', 0x01, 0xff, 0xff, 0x00, 0x01, 0x00, 0x40, 0x0c, 0, 0, 0, 0, 0, 0
        ]
    );
}

#[test]
fn update_has_id_seqnum_type_value() {
    let packet = ReceivedPacket::EntryUpdate(EntryUpdate::new(
        4,
        9,
        EntryType::BooleanArray,
        EntryValue::BooleanArray(vec![true, false]),
    ));
    assert_eq!(encode(&packet), vec![0x11, 0, 4, 0, 9, 0x10, 2, 1, 0]);
    let packet = ReceivedPacket::EntryUpdate(EntryUpdate::new(
        4,
        9,
        EntryType::StringArray,
        EntryValue::StringArray(vec!["a".to_string(), "bc".to_string()]),
    ));
    assert_eq!(
        encode(&packet),
        vec![0x11, 0, 4, 0, 9, 0x12, 2, 1, b'a', 2, b'b', b'c']
    );
}

#[test]
fn rpc_definitions_are_byte_arrays() {
    let mut out = Vec::new();
    RpcDefinition::V0.serialize(&mut out);
    assert_eq!(out, vec![1, 0]);
    assert_eq!(
        RpcDefinition::deserialize(&out, 0),
        Ok((RpcDefinition::V0, 2))
    );
    let definition = RpcDefinition::V1(RPCDefinitionData {
        procedure_name: "f".to_string(),
        parameters: vec![Parameter {
            parameter_type: EntryType::Boolean,
            parameter_name: "p".to_string(),
            parameter_default: PlainValue::Boolean(true),
        }],
        results: vec![RpcResult {
            result_type: EntryType::Double,
            result_name: "r".to_string(),
        }],
    });
    let mut out = Vec::new();
    definition.serialize(&mut out);
    assert_eq!(
        out,
        vec![12, 1, 1, b'f', 1, 0x00, 1, b'p', 1, 1, 0x01, 1, b'r']
    );
    assert_eq!(
        RpcDefinition::deserialize(&out, 0),
        Ok((definition, out.len()))
    );
}

#[test]
fn rpc_definitions_that_do_not_fit_their_array_are_malformed() {
    assert_eq!(
        RpcDefinition::deserialize(&[1, 2], 0),
        Err(ReadError::MalformedFrame(FrameError::InvalidRpcVersion(2)))
    );
    assert_eq!(
        RpcDefinition::deserialize(&[0], 0),
        Err(ReadError::MalformedFrame(FrameError::InvalidRpcDefinition))
    );
    assert_eq!(
        RpcDefinition::deserialize(&[2, 0, 0], 0),
        Err(ReadError::MalformedFrame(FrameError::InvalidRpcDefinition))
    );
    assert_eq!(
        RpcDefinition::deserialize(&[3, 1, 1, b'f'], 0),
        Err(ReadError::MalformedFrame(FrameError::InvalidRpcDefinition))
    );
    assert_eq!(
        RpcDefinition::deserialize(&[6, 1, 1, b'f', 0, 0, 9], 0),
        Err(ReadError::MalformedFrame(FrameError::InvalidRpcDefinition))
    );
    assert_eq!(
        RpcDefinition::deserialize(&[8, 1, 1, b'f', 1, 0x20, 1, b'p', 0], 0),
        Err(ReadError::MalformedFrame(FrameError::InvalidRpcDefinition))
    );
    assert_eq!(
        RpcDefinition::deserialize(&[5, 1, 0], 0),
        Err(ReadError::NeedMoreData)
    );
}

#[test]
fn every_message_survives_the_round_trip() {
    for packet in sample_packets() {
        assert!(packet.is_encodable());
        let bytes = encode(&packet);
        assert_eq!(try_decode(&bytes, 0), Ok((packet.clone(), bytes.len())));
        let mut longer = vec![0x55, 0x66];
        longer.extend_from_slice(&bytes);
        longer.extend_from_slice(&[0x00, 0x99, 0xff]);
        assert_eq!(try_decode(&longer, 2), Ok((packet, 2 + bytes.len())));
    }
}

#[test]
fn every_truncation_needs_more_data() {
    for packet in sample_packets() {
        let bytes = encode(&packet);
        for cut in 0..bytes.len() {
            assert_eq!(
                try_decode(&bytes[..cut], 0),
                Err(ReadError::NeedMoreData),
                "{:?} cut at {}",
                packet,
                cut
            );
        }
    }
}

#[test]
fn unknown_tags_are_malformed() {
    for tag in [0x06u8, 0x0f, 0x15, 0x1f, 0x22, 0xff] {
        assert_eq!(
            try_decode(&[tag, 0, 0, 0, 0, 0, 0, 0, 0], 0),
            Err(ReadError::MalformedFrame(FrameError::UnknownPacket(tag)))
        );
    }
    assert_eq!(
        try_decode(&[0x11, 0, 1, 0, 1, 0x05, 0], 0),
        Err(ReadError::MalformedFrame(FrameError::UnknownEntryType(5)))
    );
    assert_eq!(
        try_decode(&[0x01, 0x04, 0x00, 0], 0),
        Err(ReadError::MalformedFrame(FrameError::UnknownVersion(0x0400)))
    );
}

#[test]
fn hello_of_revision_two_is_read() {
    assert_eq!(
        try_decode(&[0x01, 0x02, 0x00, 1, b'a'], 0),
        Ok((
            ReceivedPacket::ClientHello(ClientHello {
                version: NTVersion::V2,
                name: "a".to_string()
            }),
            5
        ))
    );
    assert_eq!(NTVersion::from_u16(0x0200), Ok(NTVersion::V2));
    assert_eq!(NTVersion::from_u16(0x0300), Ok(NTVersion::V3));
    assert_eq!(
        NTVersion::from_u16(0x0301),
        Err(FrameError::UnknownVersion(0x0301))
    );
    assert_eq!(NTVersion::V3.to_u16(), 0x0300);
}

#[test]
fn clear_is_valid_only_with_the_magic_number() {
    assert!(ClearAllEntries::new().is_valid());
    assert_eq!(ClearAllEntries::new().magic, 0xD06CB27A);
    assert!(!ClearAllEntries { magic: 0 }.is_valid());
    assert!(!ClearAllEntries { magic: 0xD06CB27B }.is_valid());
}

#[test]
fn definitions_with_too_many_parameters_are_not_encodable() {
    let parameter = Parameter {
        parameter_type: EntryType::Boolean,
        parameter_name: "p".to_string(),
        parameter_default: PlainValue::Boolean(false),
    };
    let value = EntryValue::RpcDefinition(RpcDefinition::V1(RPCDefinitionData {
        procedure_name: "f".to_string(),
        parameters: vec![parameter; 256],
        results: vec![],
    }));
    assert!(!value.is_encodable());
    let packet =
        ReceivedPacket::EntryUpdate(EntryUpdate::new(1, 2, EntryType::RpcDefinition, value));
    assert!(!packet.is_encodable());
    let mut buffer = BytesMut::new();
    buffer.extend_from_slice(&[0x42]);
    assert_eq!(
        NTCodec.encode(&packet, &mut buffer),
        Err(Error::MalformedFrame {
            reason: FrameError::InvalidRpcDefinition
        })
    );
    assert_eq!(&buffer[..], &[0x42]);
    assert_eq!(
        NTCodec.encode_frame(&packet),
        Err(Error::MalformedFrame {
            reason: FrameError::InvalidRpcDefinition
        })
    );
}

#[test]
fn codec_appends_to_the_buffer() {
    let mut buffer = BytesMut::new();
    buffer.extend_from_slice(&[0x00]);
    let packet = ReceivedPacket::EntryDelete(EntryDelete::new(0x0102));
    assert_eq!(NTCodec.encode(&packet, &mut buffer), Ok(()));
    assert_eq!(&buffer[..], &[0x00, 0x13, 0x01, 0x02]);
    assert_eq!(NTCodec.encode_frame(&packet), Ok(vec![0x13, 0x01, 0x02]));
}

#[test]
fn codec_consumes_exactly_one_message() {
    let mut buffer = BytesMut::new();
    buffer.extend_from_slice(&[0x13, 0x01, 0x02, 0x00, 0x12, 0x00]);
    assert_eq!(
        NTCodec.decode(&mut buffer),
        Ok(Some(ReceivedPacket::EntryDelete(EntryDelete::new(0x0102))))
    );
    assert_eq!(&buffer[..], &[0x00, 0x12, 0x00]);
    assert_eq!(
        NTCodec.decode(&mut buffer),
        Ok(Some(ReceivedPacket::KeepAlive))
    );
    assert_eq!(&buffer[..], &[0x12, 0x00]);
}

#[test]
fn codec_consumes_nothing_of_a_truncated_message() {
    let mut buffer = BytesMut::new();
    assert_eq!(NTCodec.decode(&mut buffer), Ok(None));
    buffer.extend_from_slice(&[0x12, 0x00]);
    assert_eq!(NTCodec.decode(&mut buffer), Ok(None));
    assert_eq!(&buffer[..], &[0x12, 0x00]);
    assert_eq!(NTCodec.feed(&mut buffer, &[0x05, 0x01]), Ok(()));
    assert_eq!(
        NTCodec.decode(&mut buffer),
        Ok(Some(ReceivedPacket::EntryFlagsUpdate(
            EntryFlagsUpdate::new(5, 1)
        )))
    );
    assert!(buffer.is_empty());
}

#[test]
fn codec_consumes_nothing_of_a_malformed_frame() {
    let mut buffer = BytesMut::new();
    buffer.extend_from_slice(&[0x77, 0x00]);
    assert_eq!(
        NTCodec.decode(&mut buffer),
        Err(Error::MalformedFrame {
            reason: FrameError::UnknownPacket(0x77)
        })
    );
    assert_eq!(&buffer[..], &[0x77, 0x00]);
}

#[test]
fn a_frame_may_hold_several_messages() {
    let mut buffer = BytesMut::new();
    let mut frame = Vec::new();
    for packet in sample_packets() {
        frame.extend_from_slice(&encode(&packet));
    }
    frame.extend_from_slice(&[0x11, 0x00]);
    assert_eq!(NTCodec.feed(&mut buffer, &frame), Ok(()));
    let (packets, error) = NTCodec.decode_all(&mut buffer);
    assert_eq!(packets, sample_packets());
    assert_eq!(error, None);
    assert_eq!(&buffer[..], &[0x11, 0x00]);
    let (packets, error) = NTCodec.decode_all(&mut buffer);
    assert_eq!(packets, vec![]);
    assert_eq!(error, None);
}

#[test]
fn reading_a_frame_stops_at_a_malformed_message() {
    let mut buffer = BytesMut::new();
    buffer.extend_from_slice(&[0x00, 0x03, 0x99, 0x00]);
    let (packets, error) = NTCodec.decode_all(&mut buffer);
    assert_eq!(
        packets,
        vec![ReceivedPacket::KeepAlive, ReceivedPacket::ServerHelloComplete]
    );
    assert_eq!(
        error,
        Some(Error::MalformedFrame {
            reason: FrameError::UnknownPacket(0x99)
        })
    );
    assert_eq!(&buffer[..], &[0x99, 0x00]);
}

#[test]
fn a_copy_equals_what_it_copies() {
    for packet in sample_packets() {
        assert_eq!(packet.duplicate(), packet);
    }
}

struct Generator(u64);

impl Generator {
    fn next(&mut self) -> u64 {
        self.0 = self
            .0
            .wrapping_mul(6364136223846793005)
            .wrapping_add(1442695040888963407);
        self.0 >> 11
    }

    fn below(&mut self, n: u64) -> u64 {
        self.next() % n
    }

    fn text(&mut self) -> String {
        let alphabet = ['a', 'Z', '/', ' ', '0', '\u{e9}', '\u{4e2d}', '\u{1f600}', '\0'];
        let len = self.below(12);
        (0..len)
            .map(|_| alphabet[self.below(alphabet.len() as u64) as usize])
            .collect()
    }

    fn bytes(&mut self) -> Vec<u8> {
        let len = if self.below(10) == 0 { 200 } else { self.below(9) };
        (0..len).map(|_| self.next() as u8).collect()
    }

    fn plain(&mut self, kind: u64) -> PlainValue {
        match kind {
            0 => PlainValue::Boolean(self.below(2) == 1),
            1 => PlainValue::Double(self.next() << 11 | self.next()),
            2 => PlainValue::String(self.text()),
            3 => PlainValue::RawData(self.bytes()),
            4 => PlainValue::BooleanArray(
                (0..self.below(5)).map(|_| self.below(2) == 1).collect(),
            ),
            5 => PlainValue::DoubleArray((0..self.below(5)).map(|_| self.next()).collect()),
            _ => PlainValue::StringArray((0..self.below(5)).map(|_| self.text()).collect()),
        }
    }

    fn value(&mut self) -> EntryValue {
        match self.below(9) {
            7 => EntryValue::RpcDefinition(RpcDefinition::V0),
            8 => EntryValue::RpcDefinition(RpcDefinition::V1(RPCDefinitionData {
                procedure_name: self.text(),
                parameters: (0..self.below(4))
                    .map(|_| {
                        let kind = self.below(7);
                        let default = self.plain(kind);
                        Parameter {
                            parameter_type: default.entry_type(),
                            parameter_name: self.text(),
                            parameter_default: default,
                        }
                    })
                    .collect(),
                results: (0..self.below(4))
                    .map(|_| RpcResult {
                        result_type: self.plain(self.0 % 7).entry_type(),
                        result_name: self.text(),
                    })
                    .collect(),
            })),
            kind => self.plain(kind).into_value(),
        }
    }

    fn packet(&mut self) -> ReceivedPacket {
        match self.below(13) {
            0 => ReceivedPacket::KeepAlive,
            1 => ReceivedPacket::ClientHello(ClientHello {
                version: if self.below(2) == 0 {
                    NTVersion::V2
                } else {
                    NTVersion::V3
                },
                name: self.text(),
            }),
            2 => ReceivedPacket::ProtocolVersionUnsupported(ProtocolVersionUnsupported {
                supported_version: self.next() as u16,
            }),
            3 => ReceivedPacket::ServerHelloComplete,
            4 => ReceivedPacket::ServerHello(ServerHello::new(self.next() as u8, self.text())),
            5 => ReceivedPacket::ClientHelloComplete,
            6 => {
                let value = self.value();
                ReceivedPacket::EntryAssignment(EntryAssignment::new(
                    self.text(),
                    value.entry_type(),
                    self.next() as u16,
                    self.next() as u16,
                    self.next() as u8,
                    value,
                ))
            }
            7 => {
                let value = self.value();
                ReceivedPacket::EntryUpdate(EntryUpdate::new(
                    self.next() as u16,
                    self.next() as u16,
                    value.entry_type(),
                    value,
                ))
            }
            8 => ReceivedPacket::EntryFlagsUpdate(EntryFlagsUpdate::new(
                self.next() as u16,
                self.next() as u8,
            )),
            9 => ReceivedPacket::EntryDelete(EntryDelete::new(self.next() as u16)),
            10 => ReceivedPacket::ClearAllEntries(ClearAllEntries {
                magic: self.next() as u32,
            }),
            11 => ReceivedPacket::RpcExecute(RpcExecute::new(
                self.next() as u16,
                self.next() as u16,
                self.bytes(),
            )),
            _ => ReceivedPacket::RpcResponse(RpcResponse::new(
                self.next() as u16,
                self.next() as u16,
                self.bytes(),
            )),
        }
    }
}

#[test]
fn generated_messages_survive_the_round_trip() {
    let mut generator = Generator(0x5eed);
    for _ in 0..3000 {
        let packet = generator.packet();
        let bytes = encode(&packet);
        assert_eq!(
            try_decode(&bytes, 0),
            Ok((packet.clone(), bytes.len())),
            "{:?}",
            packet
        );
        if !bytes.is_empty() {
            let cut = generator.below(bytes.len() as u64) as usize;
            assert_eq!(
                try_decode(&bytes[..cut], 0),
                Err(ReadError::NeedMoreData),
                "{:?} cut at {}",
                packet,
                cut
            );
        }
    }
}

#[test]
fn generated_streams_come_out_of_the_buffer_in_order() {
    let mut generator = Generator(42);
    for _ in 0..100 {
        let packets: Vec<ReceivedPacket> = (0..generator.below(8)).map(|_| generator.packet()).collect();
        let mut buffer = BytesMut::new();
        for packet in &packets {
            assert_eq!(NTCodec.encode(packet, &mut buffer), Ok(()));
        }
        let mut wire = buffer.to_vec();
        let mut buffer = BytesMut::new();
        let mut seen = Vec::new();
        while !wire.is_empty() {
            let n = (1 + generator.below(7) as usize).min(wire.len());
            let rest = wire.split_off(n);
            assert_eq!(NTCodec.feed(&mut buffer, &wire), Ok(()));
            wire = rest;
            let (packets, error) = NTCodec.decode_all(&mut buffer);
            assert_eq!(error, None);
            seen.extend(packets);
        }
        assert_eq!(seen, packets);
        assert!(buffer.is_empty());
    }
}

#[test]
fn a_type_is_known_by_its_name_in_whatever_case() {
    assert_eq!(EntryType::from_name("string"), Some(EntryType::String));
    assert_eq!(EntryType::from_name("STRING"), Some(EntryType::String));
    assert_eq!(EntryType::from_name("Bool"), Some(EntryType::Boolean));
    assert_eq!(EntryType::from_name("dOuBlE"), Some(EntryType::Double));
    assert_eq!(EntryType::from_name("boolean"), None);
    assert_eq!(EntryType::from_name("strin"), None);
    assert_eq!(EntryType::from_name("strings"), None);
    assert_eq!(EntryType::from_name(""), None);
    assert_eq!(EntryType::from_name("raw"), None);
    assert_eq!(EntryType::from_name("dou\u{212a}le"), None);
}

#[test]
fn the_older_name_of_the_clear_directive_is_the_same_message() {
    let directive = nt::packets::DeleteAllEntries::new();
    assert_eq!(directive.magic, 0xD06C_B27A);
    assert!(directive.is_valid());
    let mut bytes = Vec::new();
    directive.serialize(&mut bytes);
    assert_eq!(bytes, vec![0x14, 0xD0, 0x6C, 0xB2, 0x7A]);
}
