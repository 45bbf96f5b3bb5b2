use nt::backend::{batch_messages, Published, TopicTable, DEFAULT_PERIOD};
use nt::connected::{starts_with, str_equal, ConnectedClient};
use nt::bin::{
    integer_serializer, read_value_of, DecodeError, IntegerForm, MsgpackStreamIterator,
    NTBinaryMessage, NTValue, PackKind, Real,
};
use nt::text::{
    DataType, MessageType, MessageValue, PublishRel, Subscribe, SubscriptionOptions, Unsubscribe,
};
use nt::topic::{Topic, TopicFlags};
use rmpv::Value;

fn pack(value: &Value) -> Vec<u8> {
    let mut out = Vec::new();
    rmpv::encode::write_value(&mut out, value).unwrap();
    out
}

fn update(id: i64, timestamp: u64, ty: u8, value: Value) -> Value {
    Value::Array(vec![
        Value::from(id),
        Value::from(timestamp),
        Value::from(ty),
        value,
    ])
}

#[test]
fn test_single_message_stream() {
    let data = vec![
        0x94, 0x2a, 0xce, 0x49, 0x96, 0x02, 0xd2, 0x10, 0x93, 0xc3, 0xc2, 0xc3,
    ];

    let messages = NTBinaryMessage::from_slice(&data[..]);

    assert_eq!(messages.len(), 1);
    assert_eq!(
        messages.into_iter().next().unwrap().ok(),
        Some(NTBinaryMessage {
            id: 42,
            timestamp: 1234567890,
            value: NTValue::BooleanArray(vec![true, false, true])
        })
    )
}

#[test]
fn test_multi_message_stream() {
    let data = vec![
        // ITEM 1
        0x94, 0x2a, 0xce, 0x49, 0x96, 0x02, 0xd2, 0x10, 0x93, 0xc3, 0xc2, 0xc3,
        // ITEM 2
        0x94, 0x45, 0xcd, 0x04, 0xd2, 0x04, 0xa5, 0x48, 0x65, 0x6c, 0x6c, 0x6f,
        // ITEM 3
        0x94, 0xcd, 0x01, 0xa4, 0xcd, 0x16, 0x2e, 0x12, 0x94, 0x01, 0x02, 0x03, 0x04,
    ];

    let messages = NTBinaryMessage::from_slice(&data[..]);

    assert_eq!(messages.len(), 3);

    let mut messages = messages.into_iter();

    assert_eq!(
        messages.next().unwrap().ok(),
        Some(NTBinaryMessage {
            id: 42,
            timestamp: 1234567890,
            value: NTValue::BooleanArray(vec![true, false, true])
        })
    );

    assert_eq!(
        messages.next().unwrap().ok(),
        Some(NTBinaryMessage {
            id: 69,
            timestamp: 1234,
            value: NTValue::String("Hello".to_string())
        })
    );

    assert_eq!(
        messages.next().unwrap().ok(),
        Some(NTBinaryMessage {
            id: 420,
            timestamp: 5678,
            value: NTValue::IntArray(vec![1, 2, 3, 4])
        })
    );
}

#[test]
fn test_empty_array() {
    let data = vec![0x94, 0x01, 0xcd, 0x04, 0xd2, 0x14, 0x90];

    let messages = NTBinaryMessage::from_slice(&data[..]);

    assert_eq!(messages.len(), 1);
    assert_eq!(
        messages.into_iter().next().unwrap().ok(),
        Some(NTBinaryMessage {
            id: 1,
            timestamp: 1234,
            value: NTValue::StringArray(vec![])
        })
    )
}

#[test]
fn test_identity() {
    let msg = NTBinaryMessage {
        id: 5,
        timestamp: 12345,
        value: NTValue::Double(Real::Double(4.2f64.to_bits())),
    };

    let v = pack(&update(5, 12345, 1, Value::F64(4.2)));
    let mut msg2 = NTBinaryMessage::from_slice(&v[..]).into_iter();

    let res = msg2.next().unwrap();
    println!("{:?}", res);
    assert_eq!(Some(msg), res.ok());
}

#[test]
fn test_invalid_message() {
    let v = vec![0x93, 0x01, 0xa3, 0x66, 0x6f, 0x6f, 0x05];

    let messages = NTBinaryMessage::from_slice(&v[..]);

    assert_eq!(messages.len(), 1);

    assert!(messages[0].is_err());
}

#[test]
fn test_mixed_messages() {
    let v = vec![
        // ITEM 1
        0x94, 0x01, 0xcd, 0x10, 0x92, 0x02, 0x05, // ITEM 2
        0x94, 0x01, 0xcd, 0x10, 0x92, 0x02, // Data tagged as int but with FP value
        0xcb, 0x3f, 0xbf, 0x97, 0x24, 0x74, 0x53, 0x8e, 0xf3,
    ];

    let messages = NTBinaryMessage::from_slice(&v[..]);
    assert_eq!(messages.len(), 2);

    let mut messages = messages.into_iter();

    assert_eq!(
        messages.next().unwrap().ok(),
        Some(NTBinaryMessage {
            id: 1,
            timestamp: 4242,
            value: NTValue::Int(5),
        })
    );

    assert!(messages.next().unwrap().is_err());
}

#[test]
fn every_field_of_an_update_has_its_error() {
    let read = |value: &Value| NTBinaryMessage::from_value(value);
    assert_eq!(
        read(&Value::from(5)),
        Err(DecodeError::InvalidTopLevelValue(PackKind::Integer))
    );
    assert_eq!(
        read(&Value::Nil),
        Err(DecodeError::InvalidTopLevelValue(PackKind::Nil))
    );
    assert_eq!(
        read(&Value::Array(vec![])),
        Err(DecodeError::InvalidTopLevelArrayLength(0))
    );
    assert_eq!(
        read(&Value::Array(vec![Value::from(1)])),
        Err(DecodeError::InvalidTopLevelArrayLength(1))
    );
    assert_eq!(
        read(&Value::Array(vec![Value::from(1), Value::from(2)])),
        Err(DecodeError::InvalidTopLevelArrayLength(2))
    );
    assert_eq!(
        read(&Value::Array(vec![
            Value::from(1),
            Value::from(2),
            Value::from(0)
        ])),
        Err(DecodeError::InvalidTopLevelArrayLength(3))
    );
    assert_eq!(
        read(&Value::Array(vec![Value::from("x")])),
        Err(DecodeError::InvalidId(PackKind::String))
    );
    assert_eq!(
        read(&Value::Array(vec![Value::from(u64::MAX)])),
        Err(DecodeError::InvalidId(PackKind::Integer))
    );
    assert_eq!(
        read(&Value::Array(vec![Value::from(1), Value::from(-1)])),
        Err(DecodeError::InvalidTimestamp(PackKind::Integer))
    );
    assert_eq!(
        read(&Value::Array(vec![Value::from(1), Value::Boolean(true)])),
        Err(DecodeError::InvalidTimestamp(PackKind::Boolean))
    );
    assert_eq!(
        read(&Value::Array(vec![
            Value::from(1),
            Value::from(2),
            Value::F64(1.0)
        ])),
        Err(DecodeError::InvalidTypeFieldType(PackKind::F64))
    );
    assert_eq!(
        read(&Value::Array(vec![
            Value::from(1),
            Value::from(2),
            Value::from(-3)
        ])),
        Err(DecodeError::InvalidTypeFieldType(PackKind::Integer))
    );
    assert_eq!(
        read(&update(1, 2, 7, Value::Nil)),
        Err(DecodeError::InvalidTypeFieldValue(7))
    );
    assert_eq!(
        read(&Value::Array(vec![
            Value::from(1),
            Value::from(2),
            Value::from(0x1_07u64)
        ])),
        Err(DecodeError::InvalidTypeFieldValue(7))
    );
    assert_eq!(
        read(&update(1, 2, 0, Value::from(1))),
        Err(DecodeError::InvalidMsgPackValue(PackKind::Integer))
    );
    assert_eq!(
        read(&update(1, 2, 16, Value::Boolean(true))),
        Err(DecodeError::InvalidMsgPackValue(PackKind::Boolean))
    );
    assert_eq!(
        read(&update(
            1,
            2,
            16,
            Value::Array(vec![
                Value::Boolean(true),
                Value::from("no"),
                Value::from(1)
            ])
        )),
        Err(DecodeError::NonUniformArray(
            DataType::BooleanArray,
            PackKind::String
        ))
    );
    assert_eq!(
        read(&update(
            1,
            2,
            18,
            Value::Array(vec![Value::from(1), Value::F32(1.0)])
        )),
        Err(DecodeError::NonUniformArray(
            DataType::IntArray,
            PackKind::F32
        ))
    );
}

#[test]
fn every_kind_of_value_is_read() {
    let read = |ty: u8, value: Value| {
        NTBinaryMessage::from_value(&update(7, 9, ty, value)).map(|m| {
            assert_eq!(m.id, 7);
            assert_eq!(m.timestamp, 9);
            m.value
        })
    };
    assert_eq!(read(0, Value::Boolean(true)), Ok(NTValue::Boolean(true)));
    assert_eq!(
        read(1, Value::F64(0.25)),
        Ok(NTValue::Double(Real::Double(0.25f64.to_bits())))
    );
    assert_eq!(
        read(1, Value::F32(0.25)),
        Ok(NTValue::Double(Real::Single(0.25f32.to_bits())))
    );
    assert_eq!(
        read(1, Value::from(3)),
        Ok(NTValue::Double(Real::Double(3.0f64.to_bits())))
    );
    assert_eq!(read(2, Value::from(-42)), Ok(NTValue::Int(-42)));
    assert_eq!(read(2, Value::from(u64::MAX)), Ok(NTValue::Int(-1)));
    assert_eq!(
        read(3, Value::F32(0.5)),
        Ok(NTValue::Float(Real::Single(0.5f32.to_bits())))
    );
    assert_eq!(
        read(3, Value::F64(1.5)),
        Ok(NTValue::Float(Real::Double(1.5f64.to_bits())))
    );
    assert_eq!(
        read(4, Value::from("abcd")),
        Ok(NTValue::String("abcd".to_string()))
    );
    assert_eq!(
        read(5, Value::Binary(vec![1, 2])),
        Ok(NTValue::Raw(vec![1, 2]))
    );
    assert_eq!(
        read(6, Value::Binary(vec![3])),
        Ok(NTValue::RPC(vec![3]))
    );
    assert_eq!(
        read(5, Value::from("text")),
        Err(DecodeError::InvalidMsgPackValue(PackKind::String))
    );
    assert_eq!(
        read(
            17,
            Value::Array(vec![Value::F64(1.0), Value::from(2)])
        ),
        Ok(NTValue::DoubleArray(vec![
            Real::Double(1.0f64.to_bits()),
            Real::Double(2.0f64.to_bits())
        ]))
    );
    assert_eq!(
        read(19, Value::Array(vec![Value::F32(1.0)])),
        Ok(NTValue::FloatArray(vec![Real::Single(1.0f32.to_bits())]))
    );
    assert_eq!(
        read(
            20,
            Value::Array(vec![Value::from("a"), Value::from("b")])
        ),
        Ok(NTValue::StringArray(vec![
            "a".to_string(),
            "b".to_string()
        ]))
    );
    assert_eq!(
        read_value_of(DataType::Int, &Value::from(5)),
        Ok(NTValue::Int(5))
    );
}

#[test]
fn the_id_is_cut_to_32_bits() {
    let message = NTBinaryMessage::from_value(&update(0x1_0000_0005, 1, 2, Value::from(0)));
    assert_eq!(message.unwrap().id, 5);
    let message = NTBinaryMessage::from_value(&update(-1, 1, 2, Value::from(0)));
    assert_eq!(message.unwrap().id, -1);
}

#[test]
fn a_stream_ends_where_the_bytes_end() {
    assert_eq!(NTBinaryMessage::from_slice(&[]), vec![]);
    let mut bytes = pack(&update(1, 2, 0, Value::Boolean(false)));
    bytes.extend_from_slice(&[0x94, 0x01]);
    let messages = NTBinaryMessage::from_slice(&bytes);
    assert_eq!(
        messages,
        vec![Ok(NTBinaryMessage {
            id: 1,
            timestamp: 2,
            value: NTValue::Boolean(false)
        })]
    );
    let mut iterator = MsgpackStreamIterator::new(vec![0xc3, 0x2a, 0xa1]);
    assert_eq!(iterator.next(), Some(Ok(Value::Boolean(true))));
    assert_eq!(iterator.next(), Some(Ok(Value::from(42))));
    assert_eq!(iterator.next(), None);
}

#[test]
fn bytes_nested_too_deep_are_an_error_and_the_stream_goes_on() {
    let mut bytes = vec![0x91; 2000];
    bytes.push(0xc3);
    let messages = NTBinaryMessage::from_slice(&bytes);
    assert!(messages.len() >= 2);
    assert_eq!(messages[0], Err(DecodeError::MsgPack));
}

#[test]
fn kinds_have_their_numbers() {
    let codes = [
        (DataType::Boolean, 0u8),
        (DataType::Double, 1),
        (DataType::Int, 2),
        (DataType::Float, 3),
        (DataType::String, 4),
        (DataType::Raw, 5),
        (DataType::RPC, 6),
        (DataType::BooleanArray, 16),
        (DataType::DoubleArray, 17),
        (DataType::IntArray, 18),
        (DataType::FloatArray, 19),
        (DataType::StringArray, 20),
    ];
    for (ty, code) in codes {
        assert_eq!(ty.into(), code);
        assert_eq!(DataType::from_code(code as u64), Some(ty));
        assert_eq!(ty.default_value().data_type(), ty);
    }
    assert_eq!(DataType::from_code(7), None);
    assert_eq!(DataType::from_code(21), None);
    assert_eq!(DataType::Int.default_value(), NTValue::Int(0));
    assert_eq!(DataType::Double.default_value(), NTValue::Double(Real::Double(0)));
    assert_eq!(DataType::Float.default_value(), NTValue::Float(Real::Single(0)));
    assert_eq!(
        DataType::String.default_value(),
        NTValue::String(String::new())
    );
    assert_eq!(
        DataType::StringArray.default_value(),
        NTValue::StringArray(vec![])
    );
}

#[test]
fn positive_integers_go_unsigned() {
    assert_eq!(integer_serializer(42), IntegerForm::Unsigned(42));
    assert_eq!(integer_serializer(0), IntegerForm::Signed(0));
    assert_eq!(integer_serializer(-42), IntegerForm::Signed(-42));
    assert_eq!(
        integer_serializer(i64::MAX),
        IntegerForm::Unsigned(i64::MAX as u64)
    );
}

#[test]
fn messages_know_their_kind() {
    assert_eq!(
        MessageValue::PublishRel(PublishRel {
            name: "/foo".to_string()
        })
        .message_type(),
        MessageType::PublishRel
    );
    assert_eq!(
        MessageValue::Unsubscribe(Unsubscribe { subuid: 1 }).message_type(),
        MessageType::Unsubscribe
    );
}

#[test]
fn flags_are_a_list_of_names() {
    assert!(!TopicFlags::default().persistent);
    assert!(TopicFlags::from_names(&vec!["persistent".to_string()]).persistent);
    assert!(TopicFlags::from_names(&vec!["bolb".to_string(), "persistent".to_string()]).persistent);
    assert!(!TopicFlags::from_names(&vec!["Persistent".to_string()]).persistent);
    assert!(!TopicFlags::from_names(&vec![]).persistent);
    assert_eq!(
        TopicFlags { persistent: true }.names(),
        vec!["persistent".to_string()]
    );
    assert_eq!(
        TopicFlags { persistent: false }.names(),
        Vec::<String>::new()
    );
    let mut flags = TopicFlags::default();
    flags.apply(&vec!["persistent".to_string()], &vec!["bolb".to_string()]);
    assert!(flags.persistent);
    flags.apply(&vec![], &vec![]);
    assert!(flags.persistent);
    flags.apply(&vec![], &vec!["persistent".to_string()]);
    assert!(!flags.persistent);
    flags.apply(
        &vec!["persistent".to_string()],
        &vec!["persistent".to_string()],
    );
    assert!(!flags.persistent);
}

#[test]
fn a_topic_takes_values_of_its_kind_that_are_not_older() {
    let mut topic = Topic::new("/foo".to_string(), DataType::Int);
    assert_eq!(topic.value, NTValue::Int(0));
    assert_eq!(topic.timestamp, 0);
    assert_eq!(topic.entry_type(), DataType::Int);
    let snapshot = topic.update_value(NTValue::Int(5), 10).unwrap();
    assert_eq!(snapshot.name, "/foo");
    assert_eq!(snapshot.value, NTValue::Int(5));
    assert_eq!(snapshot.timestamp, 10);
    assert_eq!(topic.update_value(NTValue::Int(6), 9), None);
    assert_eq!(topic.update_value(NTValue::Boolean(true), 11), None);
    assert_eq!(topic.value, NTValue::Int(5));
    assert!(topic.update_value(NTValue::Int(7), 10).is_some());
    assert_eq!(topic.snapshot().value, NTValue::Int(7));
    topic.set_value(NTValue::Int(1), 3);
    assert_eq!(topic.timestamp, 3);
}

#[test]
fn prefixes_are_compared_byte_for_byte() {
    assert!(starts_with("/foo/bar", "/foo"));
    assert!(starts_with("/foo", "/foo"));
    assert!(starts_with("/foo", ""));
    assert!(!starts_with("/fo", "/foo"));
    assert!(!starts_with("/Foo/bar", "/foo"));
    assert!(starts_with("héllo", "hé"));
    assert!(str_equal("abc", "abc"));
    assert!(!str_equal("abc", "abd"));
    assert!(!str_equal("abc", "ab"));
    assert!(str_equal("", ""));
}

#[test]
fn a_client_keeps_the_ids_of_what_was_announced_to_it() {
    let mut client = ConnectedClient::new();
    let foo = Topic::new("/foo".to_string(), DataType::Int);
    let bar = Topic::new("/bar".to_string(), DataType::String);
    let first = client.announce(&foo).unwrap();
    assert_eq!(first.id, 1);
    assert_eq!(first.name, "/foo");
    assert_eq!(first._type, DataType::Int);
    assert_eq!(client.announce(&bar).unwrap().id, 2);
    assert_eq!(client.announce(&foo).unwrap().id, 1);
    assert_eq!(client.lookup_id("/bar"), Some(2));
    assert_eq!(client.lookup_id("/baz"), None);
    assert_eq!(client.id_to_name(1), Some(&"/foo".to_string()));
    assert_eq!(client.id_to_name(3), None);
    let gone = client.unannounce(&foo).unwrap();
    assert_eq!(gone.id, 1);
    assert_eq!(gone.name, "/foo");
    assert_eq!(client.unannounce(&foo), None);
    assert_eq!(client.lookup_id("/foo"), None);
    assert_eq!(client.announce(&foo).unwrap().id, 3);
}

#[test]
fn subscriptions_cover_keys_by_prefix() {
    let mut client = ConnectedClient::new();
    assert!(!client.subscribed_to("/foo"));
    let sub = client.subscribe(Subscribe {
        prefixes: vec!["/foo".to_string(), "/bar/".to_string()],
        subuid: 7,
        options: None,
    });
    assert!(!sub.immediate);
    assert!(!sub.logging);
    assert_eq!(sub.periodic, DEFAULT_PERIOD);
    assert_eq!(f64::from_bits(DEFAULT_PERIOD), 0.1);
    assert!(client.subscribed_to("/foo/x"));
    assert!(client.subscribed_to("/bar/x"));
    assert!(!client.subscribed_to("/bar"));
    let sub = client.subscribe(Subscribe {
        prefixes: vec!["/".to_string()],
        subuid: 8,
        options: Some(SubscriptionOptions {
            immediate: true,
            periodic: 1.0f64.to_bits(),
            logging: true,
        }),
    });
    assert!(sub.immediate && sub.logging);
    assert_eq!(sub.periodic, 1.0f64.to_bits());
    assert!(!client.subscription("/foo/x").unwrap().immediate);
    assert!(client.subscription("/other").unwrap().immediate);
    client.subscribe(Subscribe {
        prefixes: vec!["/zzz".to_string()],
        subuid: 7,
        options: None,
    });
    assert_eq!(client.subs.len(), 2);
    assert!(client.subscription("/foo/x").unwrap().immediate);
    client.unsubscribe(Unsubscribe { subuid: 8 });
    assert!(!client.subscribed_to("/foo/x"));
    assert!(client.subscribed_to("/zzz"));
    assert_eq!(client.subscription("/foo/x"), None);
}

#[test]
fn updates_go_out_in_batches() {
    let updates: Vec<NTBinaryMessage> = (0..12)
        .map(|i| NTBinaryMessage {
            id: i,
            timestamp: 0,
            value: NTValue::Int(i as i64),
        })
        .collect();
    let batches = batch_messages(updates.clone(), 5);
    assert_eq!(batches.len(), 3);
    assert_eq!(batches[0], updates[0..5].to_vec());
    assert_eq!(batches[1], updates[5..10].to_vec());
    assert_eq!(batches[2], updates[10..12].to_vec());
    assert_eq!(batch_messages(updates[0..10].to_vec(), 5).len(), 2);
    assert_eq!(batch_messages(vec![], 5).len(), 0);
    assert_eq!(batch_messages(updates[0..3].to_vec(), 1).len(), 3);
}

#[test]
fn a_topic_lives_as_long_as_it_has_publishers() {
    let mut server = TopicTable::new();
    assert_eq!(
        server.create_topic("/foo".to_string(), DataType::Int),
        Published::Created
    );
    assert_eq!(
        server.create_topic("/foo".to_string(), DataType::Int),
        Published::Joined
    );
    assert_eq!(
        server.create_topic("/bar".to_string(), DataType::String),
        Published::Created
    );
    assert_eq!(server.on_release("/foo"), None);
    assert_eq!(server.topic("/foo").unwrap().value, NTValue::Int(0));
    let gone = server.on_release("/foo").unwrap();
    assert_eq!(gone.name, "/foo");
    assert_eq!(server.topic("/foo"), None);
    assert_eq!(server.on_release("/foo"), None);
    assert_eq!(server.on_release("/nothing"), None);
    assert!(server.topic("/bar").is_some());
}

#[test]
fn a_topic_of_another_kind_takes_the_name() {
    let mut server = TopicTable::new();
    server.create_topic("/foo".to_string(), DataType::Int);
    server.create_topic("/foo".to_string(), DataType::Int);
    assert!(server.update_value("/foo", NTValue::Int(3), 5).is_some());
    assert_eq!(
        server.create_topic("/foo".to_string(), DataType::Boolean),
        Published::Created
    );
    let topic = server.topic("/foo").unwrap();
    assert_eq!(topic.value, NTValue::Boolean(false));
    assert_eq!(topic.timestamp, 0);
    assert!(server.on_release("/foo").is_some());
}

#[test]
fn the_server_takes_values_that_fit_its_topics() {
    let mut server = TopicTable::new();
    server.create_topic("/foo".to_string(), DataType::Int);
    assert_eq!(server.update_value("/bar", NTValue::Int(1), 1), None);
    assert_eq!(server.update_value("/foo", NTValue::Boolean(true), 1), None);
    let snapshot = server.update_value("/foo", NTValue::Int(1), 7).unwrap();
    assert_eq!(snapshot.value, NTValue::Int(1));
    assert_eq!(snapshot.timestamp, 7);
    assert_eq!(server.update_value("/foo", NTValue::Int(2), 6), None);
    assert_eq!(server.topic("/foo").unwrap().value, NTValue::Int(1));
    let announced = server
        .update_topic_flags("/foo", TopicFlags { persistent: true })
        .unwrap();
    assert!(announced.flags.persistent);
    assert!(server.topic("/foo").unwrap().flags.persistent);
    assert_eq!(
        server.update_topic_flags("/bar", TopicFlags { persistent: true }),
        None
    );
}

#[test]
fn a_number_is_kept_as_it_stood_on_the_wire() {
    let read = |ty: u8, value: Value| {
        NTBinaryMessage::from_value(&update(1, 1, ty, value)).map(|m| m.value)
    };
    // A single that is no number keeps its sign and its payload.
    for bits in [0x7FC0_0001u32, 0xFFC0_0000, 0x7F80_0001, 0x7FFF_FFFF] {
        let single = f32::from_bits(bits);
        assert_eq!(read(3, Value::F32(single)), Ok(NTValue::Float(Real::Single(bits))));
        assert_eq!(read(1, Value::F32(single)), Ok(NTValue::Double(Real::Single(bits))));
        assert_eq!(
            read(19, Value::Array(vec![Value::F32(single)])),
            Ok(NTValue::FloatArray(vec![Real::Single(bits)]))
        );
    }
    let double = f64::from_bits(0x7FF8_0000_0000_0001);
    assert_eq!(
        read(1, Value::F64(double)),
        Ok(NTValue::Double(Real::Double(0x7FF8_0000_0000_0001)))
    );
    // An integer is the double nearest to it.
    assert_eq!(
        read(1, Value::from(u64::MAX)),
        Ok(NTValue::Double(Real::Double(18446744073709551616.0f64.to_bits())))
    );
    assert_eq!(
        read(3, Value::from(-7)),
        Ok(NTValue::Float(Real::Double((-7.0f64).to_bits())))
    );
    assert_eq!(
        read(1, Value::from((1i64 << 53) + 1)),
        Ok(NTValue::Double(Real::Double(9007199254740992.0f64.to_bits())))
    );
    assert_eq!(read(1, Value::Nil), Err(DecodeError::InvalidMsgPackValue(PackKind::Nil)));
    assert_eq!(
        read(17, Value::Array(vec![Value::F32(1.0), Value::Boolean(true)])),
        Err(DecodeError::NonUniformArray(DataType::DoubleArray, PackKind::Boolean))
    );
}
