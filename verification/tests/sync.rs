use neutrino_http::json::Json;
use neutrino_http::response::Response;
use neutrino_http::store::InMemoryStore;
use neutrino_http::sync::{
    build_sync_request, fetch_memberships, is_blank, sync_response, sync_to_json, Extensions,
    LegacyStep, LegacySync, SyncError,
};

fn from_value(value: &serde_json::Value) -> Json {
    match value {
        serde_json::Value::Null => Json::Null,
        serde_json::Value::Bool(b) => Json::Bool(*b),
        serde_json::Value::Number(n) => Json::Number(n.to_string()),
        serde_json::Value::String(s) => Json::Str(s.clone()),
        serde_json::Value::Array(items) => Json::Array(items.iter().map(from_value).collect()),
        serde_json::Value::Object(map) => {
            Json::Object(map.iter().map(|(k, v)| (k.clone(), from_value(v))).collect())
        }
    }
}

fn to_value(json: &Json) -> serde_json::Value {
    match json {
        Json::Null => serde_json::Value::Null,
        Json::Bool(b) => serde_json::Value::Bool(*b),
        Json::Number(n) => serde_json::from_str(n).unwrap(),
        Json::Str(s) => serde_json::Value::String(s.clone()),
        Json::Array(items) => serde_json::Value::Array(items.iter().map(to_value).collect()),
        Json::Object(members) => {
            let pairs = members.iter().map(|(k, v)| (k.clone(), to_value(v)));
            serde_json::Value::Object(pairs.collect())
        }
    }
}

fn json(text: &str) -> Json {
    from_value(&serde_json::from_str(text).unwrap())
}

fn same(json: &Json, text: &str) {
    let wanted: serde_json::Value = serde_json::from_str(text).unwrap();
    assert_eq!(to_value(json), wanted);
}

fn answered(response: &Response, status: u16, body: &str) {
    assert_eq!(response.status, status);
    same(&response.body, body);
}

#[test]
fn errors_are_answered() {
    answered(
        &sync_response(Err(SyncError::UnknownPos)),
        400,
        r#"{"errcode":"M_UNKNOWN_POS","error":"Unknown position"}"#,
    );
    answered(
        &sync_response(Err(SyncError::BadRequest("too many lists"))),
        400,
        r#"{"errcode":"M_INVALID_PARAM","error":"too many lists"}"#,
    );
    answered(
        &sync_response(Err(SyncError::Storage("io".to_owned()))),
        500,
        r#"{"errcode":"M_UNKNOWN","error":"io"}"#,
    );
    answered(
        &sync_response(Err(SyncError::EventConversion("odd".to_owned()))),
        500,
        r#"{"errcode":"M_UNKNOWN","error":"odd"}"#,
    );
    answered(&sync_response(Ok(json(r#"{"pos":"1"}"#))), 200, r#"{"pos":"1"}"#);
}

#[test]
fn requests_are_built_from_body_and_query() {
    assert!(is_blank(&Json::Null));
    assert!(is_blank(&json("{}")));
    assert!(!is_blank(&json(r#"{"lists":{}}"#)));
    assert!(!is_blank(&json("[]")));
    let request = build_sync_request(Some("7"), Some("30000"), Ok(5)).unwrap();
    assert_eq!(request.body, 5);
    assert_eq!(request.pos.as_deref(), Some("7"));
    assert_eq!(request.timeout, Some(30_000));
    // A timeout that is no number is passed over.
    let request = build_sync_request(None, Some("soon"), Ok(5)).unwrap();
    assert_eq!(request.pos, None);
    assert_eq!(request.timeout, None);
    let request = build_sync_request(None, Some("18446744073709551616"), Ok(5)).unwrap();
    assert_eq!(request.timeout, None);
    let refusal = build_sync_request::<u8>(None, None, Err("expected map".to_owned())).unwrap_err();
    answered(&refusal, 400, r#"{"errcode":"M_BAD_JSON","error":"expected map"}"#);
}

fn nothing() -> Extensions {
    Extensions {
        to_device: false,
        device_lists_empty: true,
        key_counts_empty: true,
        fallback_types: false,
    }
}

#[test]
fn empty_parts_are_left_out() {
    let empty = || Json::empty_object();
    let body = sync_to_json(None, "5", empty(), empty(), empty(), &nothing());
    same(&body, r#"{"pos":"5"}"#);
    let some = Extensions { fallback_types: true, ..nothing() };
    let body = sync_to_json(
        Some("t"),
        "5",
        json(r#"{"all":{}}"#),
        json(r#"{"!r:x":{}}"#),
        json(r#"{"e2ee":{}}"#),
        &some,
    );
    same(
        &body,
        r#"{"txn_id":"t","pos":"5","lists":{"all":{}},"rooms":{"!r:x":{}},"extensions":{"e2ee":{}}}"#,
    );
    for found in [
        Extensions { to_device: true, ..nothing() },
        Extensions { device_lists_empty: false, ..nothing() },
        Extensions { key_counts_empty: false, ..nothing() },
    ] {
        let body = sync_to_json(None, "5", empty(), empty(), empty(), &found);
        same(&body, r#"{"pos":"5","extensions":{}}"#);
    }
}

#[test]
fn a_stale_token_falls_back_to_a_full_sync() {
    let (state, kept) = LegacySync::begin(Ok(3)).unwrap();
    assert_eq!(kept, 3);
    let anew = match state.step(Err(SyncError::UnknownPos)) {
        LegacyStep::AskAnew(state) => state,
        LegacyStep::Answer(_) => panic!("must ask again"),
    };
    match anew.step(Ok(json(r#"{"next_batch":"9"}"#))) {
        LegacyStep::Answer(response) => answered(&response, 200, r#"{"next_batch":"9"}"#),
        LegacyStep::AskAnew(_) => panic!("must answer"),
    }
    // Only one fallback is tried.
    match LegacySync::AskedAnew.step(Err(SyncError::UnknownPos)) {
        LegacyStep::Answer(response) => assert_eq!(response.status, 400),
        LegacyStep::AskAnew(_) => panic!("must answer"),
    }
    // Any other error is answered at once.
    match LegacySync::Asked.step(Err(SyncError::Storage("io".to_owned()))) {
        LegacyStep::Answer(response) => assert_eq!(response.status, 500),
        LegacyStep::AskAnew(_) => panic!("must answer"),
    }
    let refusal = LegacySync::begin::<u8>(Err("io".to_owned())).unwrap_err();
    answered(&refusal, 500, r#"{"errcode":"M_UNKNOWN","error":"io"}"#);
}

#[test]
fn all_memberships_are_fetched() {
    let mut store = InMemoryStore::new();
    store.join_user("@a:x", "!one:x");
    store.invite_user("@a:x", "!two:x");
    store.set_membership("@a:x", "!three:x", "ban");
    store.join_user("@b:x", "!four:x");
    let mut pairs = fetch_memberships(&store, "@a:x");
    pairs.sort();
    let wanted = [("!one:x", "join"), ("!three:x", "ban"), ("!two:x", "invite")];
    assert_eq!(pairs, wanted.map(|(r, m)| (r.to_owned(), m.to_owned())).to_vec());
}
