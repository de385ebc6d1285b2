use room_relay::MessageStore;
use room_relay::rooms::create_room;
use room_relay::rooms::list_rooms;

#[test]
fn store_roundtrip_keeps_fields() {
    let mut store = MessageStore::new_in_memory().unwrap();
    store
        .add_message("r9".to_string(), "Niners".to_string(), "first".to_string())
        .unwrap();
    store
        .add_message("r9".to_string(), "Niners".to_string(), "second".to_string())
        .unwrap();
    assert_eq!(store.get_messages("r9").unwrap(), vec!["first", "second"]);
    assert!(store.get_messages("other").unwrap().is_empty());
    let rooms = store.get_rooms().unwrap();
    assert!(rooms.contains(&("r9".to_string(), "Niners".to_string())));
}

#[test]
fn create_room_returns_fresh_id_and_lists_it() {
    let mut store = MessageStore::new_in_memory().unwrap();
    let id = create_room(&mut store, "Lobby").unwrap();
    assert_eq!(id.len(), 36);
    let rooms = list_rooms(&store);
    assert!(rooms.contains(&(id.clone(), "Lobby".to_string())));

    let other = create_room(&mut store, "Lobby").unwrap();
    assert_ne!(id, other);
}

#[test]
fn messages_come_back_in_insertion_order_per_room() {
    let mut store = MessageStore::new_in_memory().unwrap();
    store
        .add_message("a".to_string(), "A".to_string(), "1".to_string())
        .unwrap();
    store
        .add_message("b".to_string(), "B".to_string(), "2".to_string())
        .unwrap();
    store
        .add_message("a".to_string(), "A".to_string(), "3".to_string())
        .unwrap();
    assert_eq!(store.get_messages("a").unwrap(), vec!["1", "3"]);
    assert_eq!(store.get_messages("b").unwrap(), vec!["2"]);
}

#[test]
fn room_marker_is_an_empty_message() {
    let mut store = MessageStore::new_in_memory().unwrap();
    store
        .add_room("lob".to_string(), "Lobby".to_string())
        .unwrap();
    assert_eq!(store.get_messages("lob").unwrap(), vec![""]);
}

#[test]
fn distinct_rooms_are_listed_once() {
    let mut store = MessageStore::new_in_memory().unwrap();
    store
        .add_message("r1".to_string(), "One".to_string(), "a".to_string())
        .unwrap();
    store
        .add_message("r1".to_string(), "One".to_string(), "b".to_string())
        .unwrap();
    let rooms = store.get_rooms().unwrap();
    assert_eq!(rooms.len(), 1);
    assert_eq!(rooms[0], ("r1".to_string(), "One".to_string()));
}
