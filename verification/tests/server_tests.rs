use realtime_hub::message::{CollabMessage, CollabOrigin, CollabType, MessageKind, RealtimeError};
use realtime_hub::group::{CollabGroupCache, DocumentGroup};
use realtime_hub::server::{
    CollabClientStream, CollabServer, MessageOutcome, RoutePair, INBOUND_BUS_CAPACITY,
    INBOUND_ROUTE_CAPACITY,
};

fn client(uid: i64) -> CollabOrigin {
    CollabOrigin::Client { uid, device_id: format!("device-{}", uid) }
}

fn init(uid: i64, object_id: &str) -> CollabMessage {
    CollabMessage::ClientInit {
        origin: client(uid),
        object_id: object_id.to_string(),
        collab_type: CollabType::Document,
        workspace_id: "w1".to_string(),
        msg_id: 1,
        payload: vec![1, 2, 3],
    }
}

fn update(uid: Option<i64>, object_id: &str) -> CollabMessage {
    CollabMessage::Other {
        kind: MessageKind::ClientUpdate,
        object_id: object_id.to_string(),
        origin: uid.map(client),
        payload: vec![9],
    }
}

fn doc(s: &str) -> String {
    s.to_string()
}

fn route(sink: u64, object_id: &str) -> Option<RoutePair> {
    Some(RoutePair { sink, object_id: doc(object_id), inbound_capacity: 100 })
}

#[test]
fn new_server_is_empty() {
    let server = CollabServer::new();
    assert!(!server.is_connected(1));
    assert!(!server.has_group(&doc("d1")));
    assert_eq!(server.sink_of(1), None);
}

#[test]
fn second_connect_replaces_the_first() {
    let mut server = CollabServer::new();
    assert!(server.connect(7, 100).is_empty());
    assert_eq!(server.sink_of(7), Some(100));
    assert!(server.connect(7, 200).is_empty());
    assert_eq!(server.sink_of(7), Some(200));
    let out = server.message(7, &init(7, "d1")).unwrap();
    assert_eq!(out.forward_to, Some(200));
}

#[test]
fn non_init_for_unknown_document_is_refused() {
    let mut server = CollabServer::new();
    server.connect(1, 10);
    let r = server.message(1, &update(Some(1), "d1"));
    assert_eq!(r, Err(RealtimeError::FirstMessageNotInit));
    assert!(!server.has_group(&doc("d1")));
    assert!(!server.is_editing(1, &doc("d1")));
    assert_eq!(server.sink_of(1), Some(10));
}

#[test]
fn init_without_client_user_is_refused() {
    let mut server = CollabServer::new();
    server.connect(1, 10);
    let msg = CollabMessage::ClientInit {
        origin: CollabOrigin::Server,
        object_id: doc("d1"),
        collab_type: CollabType::Folder,
        workspace_id: doc("w"),
        msg_id: 0,
        payload: vec![],
    };
    assert_eq!(server.message(1, &msg), Err(RealtimeError::EmptyClientUserId));
    assert!(!server.has_group(&doc("d1")));
}

#[test]
fn init_opens_the_group_and_subscribes_the_sender() {
    let mut server = CollabServer::new();
    server.connect(1, 10);
    let out = server.message(1, &init(1, "d1")).unwrap();
    assert_eq!(
        out,
        MessageOutcome { created_group: true, route: route(10, "d1"), forward_to: Some(10) }
    );
    assert!(server.has_group(&doc("d1")));
    assert!(server.observes(1, &doc("d1")));
    assert!(server.is_editing(1, &doc("d1")));
    assert!(!server.has_group(&doc("d2")));
}

#[test]
fn second_message_subscribes_nobody() {
    let mut server = CollabServer::new();
    server.connect(1, 10);
    server.message(1, &init(1, "d1")).unwrap();
    let out = server.message(1, &update(Some(1), "d1")).unwrap();
    assert_eq!(
        out,
        MessageOutcome { created_group: false, route: None, forward_to: Some(10) }
    );
    let out = server.message(1, &init(1, "d1")).unwrap();
    assert!(!out.subscribed());
    assert_eq!(out.route, None);
    assert!(!out.created_group);
    assert!(server.observes(1, &doc("d1")));
}

#[test]
fn message_without_origin_is_accepted() {
    let mut server = CollabServer::new();
    server.connect(1, 10);
    server.connect(2, 20);
    server.message(1, &init(1, "d1")).unwrap();
    let out = server.message(2, &update(None, "d1")).unwrap();
    assert_eq!(
        out,
        MessageOutcome { created_group: false, route: route(20, "d1"), forward_to: Some(20) }
    );
    assert!(server.observes(2, &doc("d1")));
}

#[test]
fn message_of_unconnected_user_is_dropped() {
    let mut server = CollabServer::new();
    let out = server.message(5, &init(5, "d1")).unwrap();
    assert_eq!(out, MessageOutcome { created_group: true, route: None, forward_to: None });
    assert!(server.has_group(&doc("d1")));
    assert!(!server.observes(5, &doc("d1")));
    assert!(!server.is_editing(5, &doc("d1")));
}

#[test]
fn fan_out_reaches_the_subscribers_of_the_document_only() {
    let mut server = CollabServer::new();
    server.connect(1, 10);
    server.connect(2, 20);
    server.connect(3, 30);
    server.message(1, &init(1, "d1")).unwrap();
    server.message(2, &init(2, "d1")).unwrap();
    server.message(3, &init(3, "d2")).unwrap();
    let msg = update(Some(1), "d1");
    let out = server.message(1, &msg).unwrap();
    assert_eq!(out.forward_to, Some(10));
    assert!(server.observes(2, msg.object_id()));
    assert!(!server.observes(3, msg.object_id()));
    assert!(server.observes(3, &doc("d2")));
}

#[test]
fn disconnect_removes_the_user_and_flushes_empty_groups() {
    let mut server = CollabServer::new();
    server.connect(1, 10);
    server.connect(2, 20);
    server.message(1, &init(1, "d1")).unwrap();
    server.message(2, &update(Some(2), "d1")).unwrap();
    server.message(1, &init(1, "d2")).unwrap();
    let flushed = server.disconnect(1);
    assert_eq!(flushed, vec![doc("d2")]);
    assert!(!server.is_connected(1));
    assert!(!server.observes(1, &doc("d1")));
    assert!(!server.is_editing(1, &doc("d1")));
    assert!(server.has_group(&doc("d1")));
    assert!(server.observes(2, &doc("d1")));
    assert!(!server.has_group(&doc("d2")));
    let flushed = server.disconnect(2);
    assert_eq!(flushed, vec![doc("d1")]);
    assert!(!server.has_group(&doc("d1")));
}

#[test]
fn disconnect_of_unknown_user_changes_nothing() {
    let mut server = CollabServer::new();
    server.connect(1, 10);
    server.message(1, &init(1, "d1")).unwrap();
    assert!(server.disconnect(9).is_empty());
    assert!(server.disconnect(9).is_empty());
    assert!(server.observes(1, &doc("d1")));
    assert_eq!(server.sink_of(1), Some(10));
}

#[test]
fn reconnect_evicts_the_group_of_a_sole_subscriber() {
    let mut server = CollabServer::new();
    server.connect(1, 10);
    server.message(1, &init(1, "d1")).unwrap();
    let flushed = server.connect(1, 11);
    assert_eq!(flushed, vec![doc("d1")]);
    assert!(!server.has_group(&doc("d1")));
    assert!(!server.observes(1, &doc("d1")));
    assert_eq!(server.sink_of(1), Some(11));
    assert_eq!(
        server.message(1, &update(Some(1), "d1")),
        Err(RealtimeError::FirstMessageNotInit)
    );
    let out = server.message(1, &init(1, "d1")).unwrap();
    assert_eq!(
        out,
        MessageOutcome { created_group: true, route: route(11, "d1"), forward_to: Some(11) }
    );
}

#[test]
fn remove_user_flushes_each_group_once() {
    let mut server = CollabServer::new();
    server.connect(1, 10);
    server.message(1, &init(1, "a")).unwrap();
    server.message(1, &init(1, "b")).unwrap();
    server.message(1, &init(1, "c")).unwrap();
    let mut flushed = server.remove_user(1);
    flushed.sort();
    assert_eq!(flushed, vec![doc("a"), doc("b"), doc("c")]);
    assert!(server.remove_user(1).is_empty());
}

#[test]
fn client_channel_derives_the_routes_of_one_document() {
    let mut stream = CollabClientStream::new(42);
    assert_eq!(stream.ws_sink(), 42);
    let pair = stream.client_channel(&doc("d1")).unwrap();
    assert_eq!(pair.sink, 42);
    assert_eq!(pair.object_id, "d1");
    assert_eq!(pair.inbound_capacity, 100);
    assert_eq!(INBOUND_ROUTE_CAPACITY, 100);
    assert_eq!(INBOUND_BUS_CAPACITY, 1000);
    assert!(pair.carries(&doc("d1")));
    assert!(!pair.carries(&doc("d2")));
}

#[test]
fn group_subscribe_is_idempotent_and_unsubscribe_reports_emptiness() {
    let mut group = DocumentGroup::new(1, doc("w"), doc("d"), CollabType::Database);
    assert!(group.is_empty());
    assert!(group.subscribe(1, client(1)));
    assert!(!group.subscribe(1, CollabOrigin::Empty));
    assert!(group.subscribe(2, client(2)));
    assert!(group.contains(1));
    assert!(!group.unsubscribe(1));
    assert!(!group.contains(1));
    assert!(!group.unsubscribe(3));
    assert!(group.unsubscribe(2));
    assert!(group.is_empty());
    let copy = group.duplicate();
    assert!(copy.is_empty());
}

#[test]
fn origin_and_message_accessors() {
    assert_eq!(client(5).client_user_id(), Some(5));
    assert_eq!(CollabOrigin::Server.client_user_id(), None);
    assert_eq!(CollabOrigin::Empty.client_user_id(), None);
    let m = update(None, "d9");
    assert_eq!(m.object_id(), "d9");
    assert!(!m.is_init());
    assert!(matches!(m.origin_or_empty(), CollabOrigin::Empty));
    let m = init(3, "d3");
    assert!(m.is_init());
    assert_eq!(m.origin_or_empty().client_user_id(), Some(3));
    assert!(matches!(client(3).duplicate(), CollabOrigin::Client { uid: 3, .. }));
}

#[test]
fn group_registry_creates_finds_and_removes() {
    let mut cache = CollabGroupCache::new();
    assert!(!cache.contains_key(&doc("d1")));
    assert!(cache.get(&doc("d1")).is_none());
    cache.create_group(4, &doc("w"), &doc("d1"), CollabType::Document);
    assert!(cache.contains_key(&doc("d1")));
    assert!(cache.get(&doc("d1")).unwrap().is_empty());
    let mut g = cache.get(&doc("d1")).unwrap().duplicate();
    g.subscribe(4, client(4));
    cache.insert_group(&doc("d1"), g);
    assert!(cache.get(&doc("d1")).unwrap().contains(4));
    cache.create_group(4, &doc("w"), &doc("d1"), CollabType::Document);
    assert!(!cache.get(&doc("d1")).unwrap().contains(4));
    cache.remove_group(&doc("d1"));
    cache.remove_group(&doc("d1"));
    assert!(!cache.contains_key(&doc("d1")));
}

#[test]
fn group_is_opened_with_the_data_of_the_initial_sync() {
    let mut server = CollabServer::new();
    server.connect(3, 30);
    let msg = CollabMessage::ClientInit {
        origin: client(77),
        object_id: doc("sheet"),
        collab_type: CollabType::Database,
        workspace_id: doc("space"),
        msg_id: 5,
        payload: vec![],
    };
    server.message(3, &msg).unwrap();
    let group = server.group(&doc("sheet")).unwrap();
    assert_eq!(group.object_id(), "sheet");
    assert_eq!(group.workspace_id(), "space");
    assert_eq!(group.creator(), 77);
    assert_eq!(group.collab_type(), CollabType::Database);
    assert!(group.contains(3));
    assert!(!group.contains(77));
    assert!(server.group(&doc("other")).is_none());
}
