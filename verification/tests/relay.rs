use room_relay::Hub;
use room_relay::MessageStore;

fn channel() -> (
    tokio::sync::mpsc::UnboundedSender<String>,
    tokio::sync::mpsc::UnboundedReceiver<String>,
) {
    tokio::sync::mpsc::unbounded_channel()
}

#[test]
fn registry_counts_connections() {
    let mut hub = Hub::new();
    assert_eq!(hub.registry.count(), 0);
    let (tx_a, _rx_a) = channel();
    let (tx_b, _rx_b) = channel();
    let a = hub.connect(tx_a);
    assert_eq!(hub.registry.count(), 1);
    let b = hub.connect(tx_b);
    assert_ne!(a, b);
    assert_eq!(hub.registry.count(), 2);
    hub.disconnect(a);
    assert_eq!(hub.registry.count(), 1);
    hub.disconnect(a);
    assert_eq!(hub.registry.count(), 1);
    hub.disconnect(b);
    assert_eq!(hub.registry.count(), 0);
}

#[test]
fn scenario_two_clients_roundtrip() {
    let mut store = MessageStore::new_in_memory().unwrap();
    let mut hub = Hub::new();
    let (tx_a, mut rx_a) = channel();
    let (tx_b, mut rx_b) = channel();
    let a = hub.connect(tx_a);
    let b = hub.connect(tx_b);

    let first = hub
        .handle_frame(
            &mut store,
            a,
            "{\"room_id\":\"r1\",\"room_name\":\"General\",\"text\":\"hi\"}",
        )
        .unwrap();
    assert_eq!(first.room_id, "r1");
    assert_eq!(first.room_name, "General");
    assert_eq!(first.text, "hi");
    assert!(first.persisted);
    assert!(first.recipients.is_empty());
    assert!(rx_b.try_recv().is_err());

    let second = hub
        .handle_frame(&mut store, b, "{\"room_id\":\"r1\",\"text\":\"hello\"}")
        .unwrap();
    assert_eq!(second.recipients, vec![a]);
    assert_eq!(rx_a.try_recv().unwrap(), "hello");

    let third = hub
        .handle_frame(&mut store, a, "{\"room_id\":\"r1\",\"text\":\"yo\"}")
        .unwrap();
    assert_eq!(third.recipients, vec![b]);
    assert_eq!(rx_b.try_recv().unwrap(), "yo");
    assert!(rx_a.try_recv().is_err());
}

#[test]
fn unused_room_is_persisted_but_delivered_to_nobody() {
    let mut store = MessageStore::new_in_memory().unwrap();
    let mut hub = Hub::new();
    let (tx_a, _rx_a) = channel();
    let (tx_b, mut rx_b) = channel();
    let a = hub.connect(tx_a);
    let _b = hub.connect(tx_b);

    let done = hub
        .handle_frame(&mut store, a, "{\"room_id\":\"nowhere\",\"text\":\"lost\"}")
        .unwrap();
    assert!(done.persisted);
    assert!(done.recipients.is_empty());
    assert!(rx_b.try_recv().is_err());
    assert_eq!(store.get_messages("nowhere").unwrap(), vec!["lost"]);
}

#[test]
fn malformed_frames_are_ignored() {
    let mut store = MessageStore::new_in_memory().unwrap();
    let mut hub = Hub::new();
    let (tx_a, _rx_a) = channel();
    let (tx_b, mut rx_b) = channel();
    let a = hub.connect(tx_a);
    let b = hub.connect(tx_b);

    assert!(hub.handle_frame(&mut store, a, "this is not json").is_none());
    assert!(hub.handle_frame(&mut store, a, "{\"room_id\":").is_none());
    assert!(hub.handle_frame(&mut store, a, "").is_none());
    assert_eq!(hub.registry.count(), 2);
    assert!(store.get_messages("").unwrap().is_empty());

    let joined = hub
        .handle_frame(&mut store, b, "{\"room_id\":\"r2\",\"text\":\"still alive\"}")
        .unwrap();
    assert_eq!(joined.room_id, "r2");
    let answered = hub
        .handle_frame(&mut store, a, "{\"room_id\":\"r2\",\"text\":\"good\"}")
        .unwrap();
    assert_eq!(answered.recipients, vec![b]);
    assert_eq!(rx_b.try_recv().unwrap(), "good");
}

#[test]
fn non_object_json_is_discarded() {
    let mut store = MessageStore::new_in_memory().unwrap();
    let mut hub = Hub::new();
    let (tx_a, _rx_a) = channel();
    let a = hub.connect(tx_a);
    assert!(hub.handle_frame(&mut store, a, "7").is_none());
    assert!(hub.handle_frame(&mut store, a, "[1]").is_none());
    assert!(hub.handle_frame(&mut store, a, "\"hello\"").is_none());
    assert!(hub.handle_frame(&mut store, a, "null").is_none());
    assert!(hub.handle_frame(&mut store, a, "true").is_none());
    assert!(store.get_messages("").unwrap().is_empty());
    assert_eq!(hub.registry.snapshot(), vec![(a, "".to_string())]);
}

#[test]
fn missing_or_nonstring_fields_default_to_empty() {
    let mut store = MessageStore::new_in_memory().unwrap();
    let mut hub = Hub::new();
    let (tx_a, _rx_a) = channel();
    let a = hub.connect(tx_a);

    let bare = hub.handle_frame(&mut store, a, "{}").unwrap();
    assert_eq!(bare.room_id, "");
    assert_eq!(bare.room_name, "");
    assert_eq!(bare.text, "");

    let odd = hub
        .handle_frame(&mut store, a, "{\"room_id\":7,\"text\":[true]}")
        .unwrap();
    assert_eq!(odd.room_id, "");
    assert_eq!(odd.text, "");
}

#[test]
fn delivery_carries_raw_text_only() {
    let mut store = MessageStore::new_in_memory().unwrap();
    let mut hub = Hub::new();
    let (tx_a, mut rx_a) = channel();
    let (tx_b, _rx_b) = channel();
    let a = hub.connect(tx_a);
    let b = hub.connect(tx_b);
    hub.handle_frame(&mut store, a, "{\"room_id\":\"r\",\"text\":\"x\"}")
        .unwrap();
    hub.handle_frame(&mut store, b, "{\"room_id\":\"r\",\"text\":\"<plain text>\"}")
        .unwrap();
    assert_eq!(rx_a.try_recv().unwrap(), "<plain text>");
}

#[test]
fn sender_never_receives_its_own_message() {
    let mut store = MessageStore::new_in_memory().unwrap();
    let mut hub = Hub::new();
    let (tx_a, mut rx_a) = channel();
    let a = hub.connect(tx_a);
    let sent = hub
        .handle_frame(&mut store, a, "{\"room_id\":\"solo\",\"text\":\"echo?\"}")
        .unwrap();
    assert!(!sent.recipients.contains(&a));
    assert!(rx_a.try_recv().is_err());
}

#[test]
fn disconnected_client_is_never_targeted() {
    let mut store = MessageStore::new_in_memory().unwrap();
    let mut hub = Hub::new();
    let (tx_a, _rx_a) = channel();
    let (tx_b, mut rx_b) = channel();
    let a = hub.connect(tx_a);
    let b = hub.connect(tx_b);
    hub.handle_frame(&mut store, a, "{\"room_id\":\"r\",\"text\":\"one\"}")
        .unwrap();
    hub.handle_frame(&mut store, b, "{\"room_id\":\"r\",\"text\":\"two\"}")
        .unwrap();
    assert_eq!(rx_b.try_recv().is_err(), true);

    hub.disconnect(b);
    assert_eq!(hub.registry.count(), 1);
    let after = hub
        .handle_frame(&mut store, a, "{\"room_id\":\"r\",\"text\":\"three\"}")
        .unwrap();
    assert!(after.recipients.is_empty());
    assert!(rx_b.try_recv().is_err());
}

#[test]
fn snapshot_reflects_most_recent_rooms() {
    let mut store = MessageStore::new_in_memory().unwrap();
    let mut hub = Hub::new();
    let (tx_a, _rx_a) = channel();
    let (tx_b, _rx_b) = channel();
    let a = hub.connect(tx_a);
    let b = hub.connect(tx_b);
    assert_eq!(
        hub.registry.snapshot(),
        vec![(a, "".to_string()), (b, "".to_string())]
    );
    hub.handle_frame(&mut store, a, "{\"room_id\":\"r1\",\"text\":\"x\"}")
        .unwrap();
    assert_eq!(
        hub.registry.snapshot(),
        vec![(a, "r1".to_string()), (b, "".to_string())]
    );
}

#[test]
fn room_change_follows_most_recent_message() {
    let mut store = MessageStore::new_in_memory().unwrap();
    let mut hub = Hub::new();
    let (tx_a, mut rx_a) = channel();
    let (tx_b, _rx_b) = channel();
    let a = hub.connect(tx_a);
    let b = hub.connect(tx_b);
    hub.handle_frame(&mut store, a, "{\"room_id\":\"r1\",\"text\":\"in r1\"}")
        .unwrap();
    hub.handle_frame(&mut store, a, "{\"room_id\":\"r2\",\"text\":\"moved\"}")
        .unwrap();
    let sent = hub
        .handle_frame(&mut store, b, "{\"room_id\":\"r1\",\"text\":\"anyone?\"}")
        .unwrap();
    assert!(sent.recipients.is_empty());
    assert!(rx_a.try_recv().is_err());
}
