use neutrino_http::event::Event;
use neutrino_http::get_missing_events::{
    answer, clamp_limit, read_request, read_request_body, request_to_json, RequestBody,
    StateDagFlag, STATE_DAG_KEY,
};
use neutrino_http::json::Json;
use neutrino_http::response::FedError;

fn from_value(value: &serde_json::Value) -> Json {
    match value {
        serde_json::Value::Null => Json::Null,
        serde_json::Value::Bool(b) => Json::Bool(*b),
        serde_json::Value::Number(n) => Json::Number(n.to_string()),
        serde_json::Value::String(s) => Json::Str(s.clone()),
        serde_json::Value::Array(items) => Json::Array(items.iter().map(from_value).collect()),
        serde_json::Value::Object(map) => {
            Json::Object(map.iter().map(|(k, v)| (k.clone(), from_value(v))).collect())
        }
    }
}

fn to_value(json: &Json) -> serde_json::Value {
    match json {
        Json::Null => serde_json::Value::Null,
        Json::Bool(b) => serde_json::Value::Bool(*b),
        Json::Number(n) => serde_json::from_str(n).unwrap(),
        Json::Str(s) => serde_json::Value::String(s.clone()),
        Json::Array(items) => serde_json::Value::Array(items.iter().map(to_value).collect()),
        Json::Object(members) => {
            let pairs = members.iter().map(|(k, v)| (k.clone(), to_value(v)));
            serde_json::Value::Object(pairs.collect())
        }
    }
}

fn json(text: &str) -> Json {
    from_value(&serde_json::from_str(text).unwrap())
}

fn same(json: &Json, text: &str) {
    let wanted: serde_json::Value = serde_json::from_str(text).unwrap();
    assert_eq!(to_value(json), wanted);
}

fn event(id: &str, ty: &str, sender: &str, state_key: Option<&str>, content: &str) -> Event {
    Event {
        event_id: id.to_owned(),
        room_id: "!r:us.example".to_owned(),
        sender: sender.to_owned(),
        event_type: ty.to_owned(),
        state_key: state_key.map(|k| k.to_owned()),
        content: json(content),
        prev_events: vec![],
        prev_state_events: vec![],
        rejected: false,
        soft_failed: false,
        raw: format!("raw {id}"),
    }
}

fn body(extra: Vec<(&str, Json)>) -> Option<RequestBody> {
    let mut v = json(r#"{"earliest_events":[],"latest_events":["$abc"]}"#);
    for (key, value) in extra {
        v = v.with(key, value);
    }
    read_request_body(&v)
}

#[test]
fn state_dag_flag_serializes_under_the_wire_key() {
    assert_eq!(
        StateDagFlag(true).to_json(),
        Json::single(STATE_DAG_KEY, Json::Bool(true))
    );
}

#[test]
fn request_body_reads_state_dag_from_the_wire_key_only() {
    assert!(body(vec![(STATE_DAG_KEY, Json::Bool(true))]).unwrap().state_dag.0);
    assert!(!body(vec![]).unwrap().state_dag.0);
    // The stable name is not the wire key yet.
    assert!(!body(vec![("state_dag", Json::Bool(true))]).unwrap().state_dag.0);
}

#[test]
fn request_body_rejects_non_boolean_state_dag() {
    assert!(body(vec![(STATE_DAG_KEY, Json::number("1"))]).is_none());
}

#[test]
fn request_bodies_of_the_wrong_shape_are_refused() {
    let read = |text: &str| read_request_body(&json(text));
    assert!(read(r#"{"earliest_events":[],"latest_events":["$a"]}"#).is_some());
    assert!(read(r#"{"latest_events":["$a"]}"#).is_none());
    assert!(read(r#"{"earliest_events":[]}"#).is_none());
    assert!(read(r#"{"earliest_events":[],"latest_events":["nope"]}"#).is_none());
    assert!(read(r#"{"earliest_events":[],"latest_events":[1]}"#).is_none());
    assert!(read(r#"{"earliest_events":[],"latest_events":["$a"],"limit":-1}"#).is_none());
    assert!(read(r#"{"earliest_events":[],"latest_events":["$a"],"limit":4294967296}"#).is_none());
    assert!(read(r#"{"earliest_events":[],"latest_events":["$a"],"limit":null}"#).is_some());
    assert!(read(r#"{"earliest_events":[],"latest_events":["$a"],"min_depth":-9223372036854775808}"#).is_some());
    assert!(read(r#"{"earliest_events":[],"latest_events":["$a"],"min_depth":"x"}"#).is_none());
    // There is no negative zero among the whole numbers.
    let deep = |n: &str| {
        let body = json(r#"{"earliest_events":[],"latest_events":["$a"]}"#);
        read_request_body(&body.and("min_depth", Json::number(n)))
    };
    assert!(deep("0").is_some() && deep("-1").is_some());
    assert!(deep("-0").is_none());
    assert!(read(r#"{"earliest_events":[],"latest_events":["$a"],"include_latest_events":1}"#).is_none());
    assert!(read("[]").is_none());
}

const HEADER: &str = r#"X-Matrix origin="peer.example",destination="us.example""#;

#[test]
fn requests_are_checked_in_order() {
    let good = json(r#"{"earliest_events":[],"latest_events":["$a"]}"#);
    let empty = json(r#"{"earliest_events":[],"latest_events":[]}"#);
    let read = |room, header, body| read_request(room, header, "us.example", body);
    let (origin, request) = read("!r:x", Some(HEADER), Some(&good)).unwrap();
    assert_eq!(origin, "peer.example");
    assert_eq!(request.latest_events, vec!["$a".to_owned()]);
    assert_eq!(read("nope", None, None), Err(FedError::BadRequest("invalid room_id")));
    assert!(matches!(read("!r:x", None, None), Err(FedError::Unauthorized(_))));
    assert_eq!(
        read("!r:x", Some(HEADER), None),
        Err(FedError::BadRequest("body is not valid JSON"))
    );
    assert_eq!(
        read("!r:x", Some(HEADER), Some(&Json::Null)),
        Err(FedError::BadRequest("body shape does not match the spec"))
    );
    assert_eq!(
        read("!r:x", Some(HEADER), Some(&empty)),
        Err(FedError::BadRequest("latest_events must not be empty"))
    );
}

#[test]
fn limits_are_clamped() {
    assert_eq!(clamp_limit(None), 10);
    assert_eq!(clamp_limit(Some(0)), 0);
    assert_eq!(clamp_limit(Some(999)), 999);
    assert_eq!(clamp_limit(Some(1001)), 1000);
    assert_eq!(clamp_limit(Some(u32::MAX)), 1000);
}

fn asked(state_dag: bool, include_latest_events: bool) -> RequestBody {
    let json = request_to_json(&vec![], &vec!["$l".to_owned()], 10, state_dag, include_latest_events);
    read_request_body(&json).unwrap()
}

fn plain(id: &str) -> Event {
    event(id, "m.room.message", "@a:x", None, "{}")
}

#[test]
fn answers_come_oldest_first() {
    let walked = vec![plain("$3"), plain("$2"), plain("$1")];
    let room = "!r:us.example";
    assert_eq!(answer(&walked, &vec![], room, &asked(false, false)), vec!["raw $1", "raw $2", "raw $3"]);
    assert_eq!(answer(&walked, &vec![], room, &asked(true, false)), vec!["raw $3", "raw $2", "raw $1"]);
}

#[test]
fn heads_are_added_once_and_only_of_the_room() {
    let walked = vec![plain("$2"), plain("$1")];
    let mut foreign = plain("$x");
    foreign.room_id = "!other:x".to_owned();
    let held = vec![plain("$3"), foreign, plain("$2"), plain("$3")];
    let room = "!r:us.example";
    assert_eq!(answer(&walked, &held, room, &asked(false, true)), vec!["raw $1", "raw $2", "raw $3"]);
    assert_eq!(answer(&walked, &held, room, &asked(false, false)), vec!["raw $1", "raw $2"]);
}
