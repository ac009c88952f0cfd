use neutrino_http::json::Json;
use neutrino_http::store::{
    event_from_value, make_event, Direction, InMemoryStore, StorageError, StoredEvent,
};

fn from_value(value: &serde_json::Value) -> Json {
    match value {
        serde_json::Value::Null => Json::Null,
        serde_json::Value::Bool(b) => Json::Bool(*b),
        serde_json::Value::Number(n) => Json::Number(n.to_string()),
        serde_json::Value::String(s) => Json::Str(s.clone()),
        serde_json::Value::Array(items) => Json::Array(items.iter().map(from_value).collect()),
        serde_json::Value::Object(map) => {
            Json::Object(map.iter().map(|(k, v)| (k.clone(), from_value(v))).collect())
        }
    }
}

fn to_value(json: &Json) -> serde_json::Value {
    match json {
        Json::Null => serde_json::Value::Null,
        Json::Bool(b) => serde_json::Value::Bool(*b),
        Json::Number(n) => serde_json::from_str(n).unwrap(),
        Json::Str(s) => serde_json::Value::String(s.clone()),
        Json::Array(items) => serde_json::Value::Array(items.iter().map(to_value).collect()),
        Json::Object(members) => {
            let pairs = members.iter().map(|(k, v)| (k.clone(), to_value(v)));
            serde_json::Value::Object(pairs.collect())
        }
    }
}

fn json(text: &str) -> Json {
    from_value(&serde_json::from_str(text).unwrap())
}

fn same(json: &Json, text: &str) {
    let wanted: serde_json::Value = serde_json::from_str(text).unwrap();
    assert_eq!(to_value(json), wanted);
}

fn stored(id: &str, room: &str, ty: &str, key: Option<&str>, content: &str) -> StoredEvent {
    make_event(id, room, ty, key, "@a:x", 5, json(content))
}

fn ids(events: &[StoredEvent]) -> Vec<&str> {
    events.iter().map(|e| e.event_id.as_str()).collect()
}

#[test]
fn made_events_read_back() {
    let event = make_event("$e", "!r:x", "m.room.name", Some(""), "@a:x", 7, json(r#"{"name":"N"}"#));
    same(
        &event.json,
        r#"{"event_id":"$e","room_id":"!r:x","type":"m.room.name","state_key":"","sender":"@a:x",
            "origin_server_ts":7,"content":{"name":"N"}}"#,
    );
    assert_eq!(event_from_value(&event.json), Some(event));
    assert_eq!(event_from_value(&json("{}")), None);
    let odd = json(r#"{"event_id":"e","room_id":"!r:x","type":"t","sender":"@a:x"}"#);
    assert_eq!(event_from_value(&odd), None);
    let bare = json(r#"{"event_id":"$e","room_id":"!r:x","type":"t","sender":"@a:x"}"#);
    assert_eq!(event_from_value(&bare).map(|e| e.origin_server_ts), Some(0));
}

#[test]
fn state_and_memberships_follow_events() {
    let mut store = InMemoryStore::new();
    store.persist_event(&stored("$n1", "!r:x", "m.room.name", Some(""), r#"{"name":"one"}"#));
    store.persist_event(&stored("$m", "!r:x", "m.room.message", None, "{}"));
    store.persist_event(&stored("$n2", "!r:x", "m.room.name", Some(""), r#"{"name":"two"}"#));
    store.persist_event(&stored("$j", "!r:x", "m.room.member", Some("@a:x"), r#"{"membership":"join"}"#));
    assert_eq!(
        store.current_state_event("!r:x", "m.room.name", "").map(|e| e.event_id),
        Some("$n2".to_owned())
    );
    assert_eq!(store.current_room_state("!r:x").len(), 2);
    assert_eq!(store.current_state_events_of_type("!r:x", "m.room.name").len(), 1);
    assert_eq!(store.joined_members("!r:x").len(), 1);
    assert_eq!(store.members_of("!r:x").len(), 1);
    assert_eq!(store.joined_rooms("@a:x"), vec!["!r:x".to_owned()]);
    assert!(store.invited_rooms("@a:x").is_empty());
    store.persist_event(&stored("$l", "!r:x", "m.room.member", Some("@a:x"), r#"{"membership":"leave"}"#));
    assert!(store.joined_rooms("@a:x").is_empty());
    assert!(store.joined_members("!r:x").is_empty());
    // An event that is only added leaves the memberships alone.
    store.add_event(stored("$k", "!r:x", "m.room.member", Some("@b:x"), r#"{"membership":"join"}"#));
    assert!(store.joined_rooms("@b:x").is_empty());
    assert!(store.current_state_event("!r:x", "m.room.member", "@b:x").is_some());
    store.remove_state("!r:x", "m.room.name", "");
    assert_eq!(store.current_state_event("!r:x", "m.room.name", ""), None);
}

#[test]
fn history_leaves_the_state_alone() {
    let mut store = InMemoryStore::new();
    store.persist_event(&stored("$n1", "!r:x", "m.room.name", Some(""), r#"{"name":"one"}"#));
    store.persist_historical_event(&stored("$n0", "!r:x", "m.room.name", Some(""), r#"{"name":"zero"}"#));
    store.persist_historical_event(&stored("$j", "!r:x", "m.room.member", Some("@a:x"), r#"{"membership":"join"}"#));
    assert_eq!(
        store.current_state_event("!r:x", "m.room.name", "").map(|e| e.event_id),
        Some("$n1".to_owned())
    );
    assert!(store.joined_rooms("@a:x").is_empty());
    assert_eq!(ids(&store.get_events(&vec!["$n0".to_owned(), "$x".to_owned()])), vec!["$n0"]);
}

#[test]
fn the_log_is_read_in_order() {
    let mut store = InMemoryStore::new();
    assert_eq!(store.latest(), 0);
    for id in ["$1", "$2", "$3"] {
        store.add_event(stored(id, "!r:x", "m.room.message", None, "{}"));
    }
    store.add_event(stored("$other", "!s:x", "m.room.message", None, "{}"));
    assert_eq!(store.latest(), 4);
    assert!(store.events_after(store.latest(), 10).is_empty());
    let after: Vec<u64> = store.events_after(1, 2).iter().map(|(pos, _)| *pos).collect();
    assert_eq!(after, vec![2, 3]);
    let (page, more) = store.room_messages("!r:x", Direction::Backward, 2);
    assert_eq!((ids(&page), more), (vec!["$3", "$2"], Some(2)));
    let (page, more) = store.room_messages("!r:x", Direction::Forward, 3);
    assert_eq!((ids(&page), more), (vec!["$1", "$2", "$3"], None));
    assert_eq!(store.count_distinct_rooms(), 2);
}

#[test]
fn rooms_are_created() {
    let mut store = InMemoryStore::new();
    let create = stored("$c", "!r:x", "m.room.create", Some(""), r#"{"room_version":"11"}"#);
    let join = stored("$j", "!r:x", "m.room.member", Some("@a:x"), r#"{"membership":"join"}"#);
    assert_eq!(store.create_room(&create, &vec![join.copy()]), Ok(()));
    assert_eq!(store.get_room_version("!r:x").as_deref(), Some("11"));
    assert_eq!(store.joined_rooms("@a:x"), vec!["!r:x".to_owned()]);
    assert_eq!(store.room_count(), 1);
    let bare = stored("$d", "!s:x", "m.room.create", Some(""), "{}");
    assert_eq!(store.create_room(&bare, &vec![]), Ok(()));
    assert_eq!(store.get_room_version("!s:x").as_deref(), Some("12"));
    // A version that is none registers no room, though the event is kept.
    let odd = stored("$o", "!o:x", "m.room.create", Some(""), r#"{"room_version":"so odd"}"#);
    assert_eq!(store.create_room(&odd, &vec![]), Ok(()));
    assert_eq!(store.get_room_version("!o:x"), None);
    assert_eq!(
        store.create_room(&join, &vec![]),
        Err(StorageError::InvalidInput("create_event must be type m.room.create"))
    );
    store.add_room("!t:x", "12");
    assert_eq!(store.room_count(), 3);
}

#[test]
fn events_come_from_json() {
    let mut store = InMemoryStore::new();
    let event = stored("$e", "!r:x", "m.room.topic", Some(""), r#"{"topic":"T"}"#);
    assert_eq!(store.insert_event_from_json(&event.json).as_deref(), Some("$e"));
    assert_eq!(store.insert_event_from_json(&json("{}")), None);
    assert_eq!(store.latest(), 1);
    // Nothing is pending, and no transaction was seen.
    assert!(store.pending_destinations().is_empty());
    assert!(store.pending_pdus("peer.example").is_empty());
    assert!(!store.record_federation_txn("peer.example", "1"));
    assert_eq!(store.get_client_txn("1", "@a:x"), None);
}
