use nt::bin::{NTBinaryMessage, NTValue};
use nt::connected::Subscription;
use nt::nt4::{remove_first, CallbackType, NTServer, Outgoing, ServerMessage, TextOut};
use nt::text::{
    Announce, DataType, GetValues, MessageValue, PublishRel, PublishReq, SetFlags, Subscribe,
    SubscriptionOptions, Unannounce, Unsubscribe,
};
use nt::topic::{Topic, TopicFlags, TopicSnapshot};

const TENTH: u64 = 0x3FB9_9999_9999_999A;

fn announce(name: &str, id: i32, ty: DataType, persistent: bool) -> TextOut {
    TextOut::Announce(Announce {
        name: name.to_string(),
        id,
        _type: ty,
        flags: TopicFlags { persistent },
    })
}

fn unannounce(name: &str, id: i32) -> TextOut {
    TextOut::Unannounce(Unannounce { name: name.to_string(), id })
}

fn publish(server: &mut NTServer, cid: u32, name: &str, ty: DataType) -> Vec<Outgoing> {
    server.client_publish(cid, PublishReq { name: name.to_string(), _type: ty })
}

fn subscribe(
    server: &mut NTServer,
    cid: u32,
    subuid: u32,
    prefix: &str,
    options: Option<SubscriptionOptions>,
) -> Vec<Outgoing> {
    server.client_subscribe(cid, Subscribe { prefixes: vec![prefix.to_string()], subuid, options })
}

fn int_update(id: i32, timestamp: u64, value: i64) -> NTBinaryMessage {
    NTBinaryMessage { id, timestamp, value: NTValue::Int(value) }
}

#[test]
fn a_new_client_is_told_of_every_topic_five_to_a_frame() {
    let mut server = NTServer::new();
    for i in 0..6 {
        let out = server.publish(Topic::new(format!("/t/{}", i), DataType::Int));
        assert!(out.is_empty());
    }
    let out = server.accept(7);
    assert_eq!(out.len(), 2);
    let first: Vec<TextOut> =
        (0..5).map(|i| announce(&format!("/t/{}", i), i + 1, DataType::Int, false)).collect();
    assert_eq!(out[0], Outgoing::Text(7, first));
    assert_eq!(out[1], Outgoing::Text(7, vec![announce("/t/5", 6, DataType::Int, false)]));
    let client = server.client(7).unwrap();
    assert_eq!(client.lookup_id("/t/3"), Some(4));
    assert!(server.client(8).is_none());
    assert!(NTServer::new().accept(1).is_empty());
}

#[test]
fn a_new_topic_is_announced_to_every_client_once() {
    let mut server = NTServer::new();
    server.accept(1);
    server.accept(2);
    let out = publish(&mut server, 1, "/a", DataType::Double);
    assert_eq!(
        out,
        vec![
            Outgoing::Text(1, vec![announce("/a", 1, DataType::Double, false)]),
            Outgoing::Text(2, vec![announce("/a", 1, DataType::Double, false)]),
        ]
    );
    assert_eq!(server.client(1).unwrap().pubs, vec!["/a".to_string()]);
    assert!(server.client(2).unwrap().pubs.is_empty());
    // A second publisher of the same kind joins in silence.
    assert!(publish(&mut server, 2, "/a", DataType::Double).is_empty());
    // The topic stays while one of the two is left.
    assert!(server.client_release(1, PublishRel { name: "/a".to_string() }).is_empty());
    assert!(server.topic("/a").is_some());
    let out = server.client_release(2, PublishRel { name: "/a".to_string() });
    assert_eq!(
        out,
        vec![
            Outgoing::Text(1, vec![unannounce("/a", 1)]),
            Outgoing::Text(2, vec![unannounce("/a", 1)]),
        ]
    );
    assert!(server.topic("/a").is_none());
    assert_eq!(server.client(1).unwrap().lookup_id("/a"), None);
}

#[test]
fn a_request_of_an_unknown_connection_does_nothing() {
    let mut server = NTServer::new();
    assert!(publish(&mut server, 9, "/a", DataType::Int).is_empty());
    assert!(server.topic("/a").is_none());
    assert!(server.client_release(9, PublishRel { name: "/a".to_string() }).is_empty());
    assert!(subscribe(&mut server, 9, 1, "/", None).is_empty());
    server.client_unsubscribe(9, Unsubscribe { subuid: 1 });
    assert!(server.client_get_values(9, &GetValues { ids: vec![1] }).is_empty());
    assert!(server.client_updates(9, vec![int_update(-1, 0, 0)], 5).is_empty());
    assert!(server.disconnect(9).is_empty());
    assert!(server.client(9).is_none());
}

#[test]
fn the_observers_of_the_server_hear_of_topics_under_their_prefix() {
    let mut server = NTServer::new();
    let first = server.subscribe("/a".to_string());
    let second = server.subscribe("/b".to_string());
    let third = server.subscribe("/".to_string());
    assert_eq!((first, second, third), (1, 2, 3));
    let out = server.publish(Topic::new("/a/x".to_string(), DataType::Boolean));
    let snapshot = TopicSnapshot {
        name: "/a/x".to_string(),
        value: NTValue::Boolean(false),
        timestamp: 0,
    };
    assert_eq!(
        out,
        vec![
            Outgoing::Notify(1, snapshot.clone(), CallbackType::Create),
            Outgoing::Notify(3, snapshot.clone(), CallbackType::Create),
        ]
    );
    server.unsubscribe(1);
    assert!(server.release("/other").is_empty());
    let out = server.release("/a/x");
    assert_eq!(out, vec![Outgoing::Notify(3, snapshot, CallbackType::Delete)]);
    assert!(server.topic("/a/x").is_none());
    assert!(server.release("/a/x").is_empty());
}

#[test]
fn a_topic_of_another_kind_is_announced_anew_under_its_old_id() {
    let mut server = NTServer::new();
    server.accept(1);
    publish(&mut server, 1, "/a", DataType::Int);
    let out = publish(&mut server, 1, "/a", DataType::String);
    assert_eq!(out, vec![Outgoing::Text(1, vec![announce("/a", 1, DataType::String, false)])]);
    assert_eq!(server.topic("/a").unwrap().value, NTValue::String(String::new()));
}

#[test]
fn the_time_is_sent_back_at_once() {
    let mut server = NTServer::new();
    server.accept(1);
    let out = server.client_updates(1, vec![int_update(-1, 3, 42)], 1000);
    assert_eq!(out, vec![Outgoing::Binary(1, vec![int_update(-1, 1000, 42)])]);
}

#[test]
fn an_immediate_subscriber_gets_a_value_at_once_and_another_waits_for_the_period() {
    let mut server = NTServer::new();
    server.accept(1);
    server.accept(2);
    server.accept(3);
    publish(&mut server, 1, "/a", DataType::Int);
    let at_once = SubscriptionOptions { immediate: true, periodic: TENTH, logging: false };
    assert!(subscribe(&mut server, 2, 10, "/a", Some(at_once)).len() == 1);
    assert!(subscribe(&mut server, 3, 11, "/", None).len() == 1);
    let out = server.client_updates(1, vec![int_update(1, 5, 7), int_update(1, 6, 8)], 0);
    assert_eq!(
        out,
        vec![
            Outgoing::Binary(2, vec![int_update(1, 5, 7)]),
            Outgoing::Binary(2, vec![int_update(1, 6, 8)]),
        ]
    );
    assert_eq!(server.topic("/a").unwrap().value, NTValue::Int(8));
    assert_eq!(server.client(3).unwrap().queued_updates.len(), 2);
    // The period passes: only the newest value of the run goes out.
    let out = server.tick();
    assert_eq!(out, vec![Outgoing::Binary(3, vec![int_update(1, 6, 8)])]);
    assert!(server.client(3).unwrap().queued_updates.is_empty());
    assert!(server.tick().is_empty());
}

#[test]
fn a_logging_subscriber_gets_every_value() {
    let mut server = NTServer::new();
    server.accept(1);
    publish(&mut server, 1, "/a", DataType::Int);
    publish(&mut server, 1, "/b", DataType::Int);
    let logging = SubscriptionOptions { immediate: false, periodic: TENTH, logging: true };
    subscribe(&mut server, 1, 1, "/", Some(logging));
    let updates: Vec<NTBinaryMessage> = (0..7).map(|i| int_update(1 + (i % 2), 10 + i as u64, i as i64)).collect();
    assert!(server.client_updates(1, updates.clone(), 0).is_empty());
    let out = server.tick();
    assert_eq!(
        out,
        vec![Outgoing::Binary(1, updates[..5].to_vec()), Outgoing::Binary(1, updates[5..].to_vec())]
    );
}

#[test]
fn of_a_run_of_values_the_newest_goes_out_and_of_equals_the_last() {
    let mut server = NTServer::new();
    server.accept(1);
    publish(&mut server, 1, "/a", DataType::Int);
    publish(&mut server, 1, "/b", DataType::Int);
    subscribe(&mut server, 1, 1, "/", None);
    let updates = vec![
        int_update(1, 5, 1),
        int_update(1, 5, 2),
        int_update(2, 6, 3),
        int_update(1, 7, 4),
    ];
    server.client_updates(1, updates, 0);
    let out = server.tick();
    assert_eq!(
        out,
        vec![Outgoing::Binary(1, vec![int_update(1, 5, 2), int_update(2, 6, 3), int_update(1, 7, 4)])]
    );
}

#[test]
fn an_older_value_is_dropped_and_one_of_another_kind_is_taken() {
    let mut server = NTServer::new();
    server.accept(1);
    publish(&mut server, 1, "/a", DataType::Int);
    let at_once = SubscriptionOptions { immediate: true, periodic: TENTH, logging: false };
    subscribe(&mut server, 1, 1, "/a", Some(at_once));
    server.client_updates(1, vec![int_update(1, 10, 1)], 0);
    assert!(server.client_updates(1, vec![int_update(1, 9, 2)], 0).is_empty());
    assert_eq!(server.topic("/a").unwrap().value, NTValue::Int(1));
    // An id that the client has for no topic is passed over.
    assert!(server.client_updates(1, vec![int_update(5, 11, 2)], 0).is_empty());
    let text = NTBinaryMessage { id: 1, timestamp: 10, value: NTValue::Boolean(true) };
    assert_eq!(
        server.client_updates(1, vec![text.clone()], 0),
        vec![Outgoing::Binary(1, vec![text])]
    );
    assert_eq!(server.topic("/a").unwrap().entry_type(), DataType::Boolean);
}

#[test]
fn the_server_gives_a_value_of_the_right_kind_to_the_subscribers() {
    let mut server = NTServer::new();
    server.accept(1);
    server.accept(2);
    server.publish(Topic::new("/a".to_string(), DataType::Int));
    subscribe(&mut server, 2, 1, "/a", None);
    assert!(server.update_topic("/a", NTValue::Boolean(true), 5).is_empty());
    assert!(server.update_topic("/none", NTValue::Int(1), 5).is_empty());
    let out = server.update_topic("/a", NTValue::Int(3), 5);
    assert_eq!(out, vec![Outgoing::Binary(2, vec![int_update(1, 5, 3)])]);
    assert!(server.update_topic("/a", NTValue::Int(4), 4).is_empty());
    assert_eq!(server.topic("/a").unwrap().timestamp, 5);
}

#[test]
fn a_subscriber_gets_what_the_topics_hold() {
    let mut server = NTServer::new();
    server.accept(1);
    for i in 0..6 {
        server.publish(Topic::new(format!("/t/{}", i), DataType::Int));
        server.update_topic(&format!("/t/{}", i), NTValue::Int(i), 100 + i as u64);
    }
    server.publish(Topic::new("/u".to_string(), DataType::Int));
    let out = server.client_subscribe(
        1,
        Subscribe { prefixes: vec!["/t/".to_string(), "/u".to_string()], subuid: 4, options: None },
    );
    let all: Vec<NTBinaryMessage> = (0..6)
        .map(|i| int_update(i + 1, 100 + i as u64, i as i64))
        .chain(std::iter::once(int_update(7, 0, 0)))
        .collect();
    assert_eq!(
        out,
        vec![Outgoing::Binary(1, all[..5].to_vec()), Outgoing::Binary(1, all[5..].to_vec())]
    );
    let sub = server.client(1).unwrap().subscription("/u").unwrap();
    assert_eq!(sub.periodic, TENTH);
    assert!(!sub.immediate && !sub.logging);
    let out = server.client_get_values(1, &GetValues { ids: vec![7, 99, 2] });
    assert_eq!(out, vec![Outgoing::Binary(1, vec![int_update(7, 0, 0), int_update(2, 101, 1)])]);
    server.client_unsubscribe(1, Unsubscribe { subuid: 4 });
    assert!(!server.client(1).unwrap().subscribed_to("/u"));
}

#[test]
fn new_flags_are_announced_under_the_old_id() {
    let mut server = NTServer::new();
    server.accept(1);
    publish(&mut server, 1, "/a", DataType::Int);
    let out = server.client_set_flags(&SetFlags {
        name: "/a".to_string(),
        add: vec!["persistent".to_string()],
        remove: vec![],
    });
    assert_eq!(out, vec![Outgoing::Text(1, vec![announce("/a", 1, DataType::Int, true)])]);
    assert!(server.topic("/a").unwrap().flags.persistent);
    let out = server.client_set_flags(&SetFlags {
        name: "/a".to_string(),
        add: vec!["persistent".to_string()],
        remove: vec!["persistent".to_string()],
    });
    assert_eq!(out, vec![Outgoing::Text(1, vec![announce("/a", 1, DataType::Int, false)])]);
    let out = server.update_topic_flags("/a", TopicFlags { persistent: true });
    assert_eq!(out, vec![Outgoing::Text(1, vec![announce("/a", 1, DataType::Int, true)])]);
    let missing = SetFlags { name: "/b".to_string(), add: vec![], remove: vec![] };
    assert!(server.client_set_flags(&missing).is_empty());
    assert!(server.update_topic_flags("/b", TopicFlags { persistent: true }).is_empty());
}

#[test]
fn a_client_that_goes_lets_go_of_what_it_published() {
    let mut server = NTServer::new();
    let watcher = server.subscribe("/".to_string());
    server.accept(1);
    server.accept(2);
    publish(&mut server, 1, "/a", DataType::Int);
    publish(&mut server, 1, "/b", DataType::Int);
    publish(&mut server, 2, "/b", DataType::Int);
    let out = server.on_message(ServerMessage::ClientDisconnected(1));
    let gone = TopicSnapshot { name: "/a".to_string(), value: NTValue::Int(0), timestamp: 0 };
    assert_eq!(
        out,
        vec![
            Outgoing::Text(2, vec![unannounce("/a", 1)]),
            Outgoing::Notify(watcher, gone, CallbackType::Delete),
        ]
    );
    assert!(server.client(1).is_none());
    assert!(server.topic("/a").is_none());
    assert!(server.topic("/b").is_some());
    assert!(!server.disconnect(2).is_empty());
    assert!(server.topic("/b").is_none());
}

#[test]
fn a_connection_that_comes_again_starts_anew() {
    let mut server = NTServer::new();
    server.accept(1);
    publish(&mut server, 1, "/a", DataType::Int);
    subscribe(&mut server, 1, 1, "/", None);
    let out = server.accept(1);
    assert_eq!(out, vec![Outgoing::Text(1, vec![announce("/a", 1, DataType::Int, false)])]);
    let client = server.client(1).unwrap();
    assert!(client.subs.is_empty());
    assert!(client.pubs.is_empty());
}

#[test]
fn the_period_of_one_subscription_sends_what_it_covers() {
    let mut server = NTServer::new();
    server.accept(1);
    publish(&mut server, 1, "/a", DataType::Int);
    publish(&mut server, 1, "/b", DataType::Int);
    let slow = SubscriptionOptions { immediate: false, periodic: 0x3FF0_0000_0000_0000, logging: false };
    subscribe(&mut server, 1, 1, "/", Some(slow));
    server.client_updates(
        1,
        vec![int_update(1, 5, 1), int_update(2, 6, 2), int_update(1, 7, 3), int_update(1, 8, 4)],
        0,
    );
    // Without a subscription of the default period the queue waits.
    assert!(server.tick().is_empty());
    assert_eq!(server.client(1).unwrap().queued_updates.len(), 4);
    let only_a = Subscription {
        prefixes: vec!["/a".to_string()],
        immediate: false,
        periodic: 0x3FF0_0000_0000_0000,
        logging: false,
    };
    let out = server.flush(1, &only_a);
    assert_eq!(out, vec![Outgoing::Binary(1, vec![int_update(1, 8, 4)])]);
    let left = &server.client(1).unwrap().queued_updates;
    assert_eq!(left.len(), 1);
    assert_eq!(left[0].name, "/b");
    let logging = Subscription { prefixes: vec!["/".to_string()], logging: true, ..only_a };
    assert_eq!(server.flush(1, &logging), vec![Outgoing::Binary(1, vec![int_update(2, 6, 2)])]);
    assert!(server.flush(1, &logging).is_empty());
    assert!(server.flush(2, &logging).is_empty());
}

#[test]
fn text_messages_go_to_their_steps() {
    let mut server = NTServer::new();
    server.accept(1);
    let out = server.client_text(
        1,
        MessageValue::PublishReq(PublishReq { name: "/a".to_string(), _type: DataType::Int }),
    );
    assert_eq!(out, vec![Outgoing::Text(1, vec![announce("/a", 1, DataType::Int, false)])]);
    let out = server.client_text(
        1,
        MessageValue::Subscribe(Subscribe { prefixes: vec!["/".to_string()], subuid: 1, options: None }),
    );
    assert_eq!(out, vec![Outgoing::Binary(1, vec![int_update(1, 0, 0)])]);
    let out = server.client_text(1, MessageValue::GetValues(GetValues { ids: vec![1] }));
    assert_eq!(out, vec![Outgoing::Binary(1, vec![int_update(1, 0, 0)])]);
    let out = server.client_text(
        1,
        MessageValue::SetFlags(SetFlags {
            name: "/a".to_string(),
            add: vec!["persistent".to_string()],
            remove: vec![],
        }),
    );
    assert_eq!(out, vec![Outgoing::Text(1, vec![announce("/a", 1, DataType::Int, true)])]);
    assert!(server.client_text(1, MessageValue::Unsubscribe(Unsubscribe { subuid: 1 })).is_empty());
    assert!(!server.client(1).unwrap().subscribed_to("/a"));
    let word = Announce {
        name: "/z".to_string(),
        id: 3,
        _type: DataType::Int,
        flags: TopicFlags { persistent: false },
    };
    assert!(server.client_text(1, MessageValue::Announce(word)).is_empty());
    assert!(server.topic("/z").is_none());
    let out = server.client_text(1, MessageValue::PublishRel(PublishRel { name: "/a".to_string() }));
    assert_eq!(out, vec![Outgoing::Text(1, vec![unannounce("/a", 1)])]);
}

#[test]
fn only_the_first_of_equal_names_leaves_a_list() {
    let mut list = vec!["a".to_string(), "b".to_string(), "a".to_string()];
    assert!(remove_first(&mut list, "a"));
    assert_eq!(list, vec!["b".to_string(), "a".to_string()]);
    assert!(!remove_first(&mut list, "c"));
    assert_eq!(list.len(), 2);
}

#[test]
fn the_ids_of_the_servers_subscriptions_count_up() {
    let mut server = NTServer::new();
    assert_eq!(server.subscribe("/a".to_string()), 1);
    assert_eq!(server.subscribe("/a".to_string()), 2);
    server.unsubscribe(1);
    let out = server.publish(Topic::new("/a".to_string(), DataType::Int));
    assert_eq!(out.len(), 1);
    match &out[0] {
        Outgoing::Notify(id, snapshot, kind) => {
            assert_eq!(*id, 2);
            assert_eq!(snapshot.name, "/a");
            assert_eq!(*kind, CallbackType::Create);
        }
        other => panic!("not a notification: {:?}", other),
    }
}
