use neutrino_http::json::{steps_of, Json};
use neutrino_http::keys::KeyStore;

fn from_value(value: &serde_json::Value) -> Json {
    match value {
        serde_json::Value::Null => Json::Null,
        serde_json::Value::Bool(b) => Json::Bool(*b),
        serde_json::Value::Number(n) => Json::Number(n.to_string()),
        serde_json::Value::String(s) => Json::Str(s.clone()),
        serde_json::Value::Array(items) => Json::Array(items.iter().map(from_value).collect()),
        serde_json::Value::Object(map) => {
            Json::Object(map.iter().map(|(k, v)| (k.clone(), from_value(v))).collect())
        }
    }
}

fn to_value(json: &Json) -> serde_json::Value {
    match json {
        Json::Null => serde_json::Value::Null,
        Json::Bool(b) => serde_json::Value::Bool(*b),
        Json::Number(n) => serde_json::from_str(n).unwrap(),
        Json::Str(s) => serde_json::Value::String(s.clone()),
        Json::Array(items) => serde_json::Value::Array(items.iter().map(to_value).collect()),
        Json::Object(members) => {
            let pairs = members.iter().map(|(k, v)| (k.clone(), to_value(v)));
            serde_json::Value::Object(pairs.collect())
        }
    }
}

fn json(text: &str) -> Json {
    from_value(&serde_json::from_str(text).unwrap())
}

fn same(json: &Json, text: &str) {
    let wanted: serde_json::Value = serde_json::from_str(text).unwrap();
    assert_eq!(to_value(json), wanted);
}

#[test]
fn keys_are_kept_and_given_back() {
    let mut store = KeyStore::new();
    same(&store.keys_query(), r#"{"device_keys":{}}"#);
    // An upload without device keys stores nothing.
    let counts = store.keys_upload("@a:x", &json("{}"));
    same(&counts, r#"{"one_time_key_counts":{"signed_curve25519":100}}"#);
    same(&store.keys_query(), r#"{"device_keys":{}}"#);
    store.keys_upload("@a:x", &json(r#"{"device_keys":{"k":1}}"#));
    same(&store.keys_query(), r#"{"device_keys":{"@a:x":{"DEVICEID":{"k":1}}}}"#);
    // The first upload wins.
    store.keys_upload("@a:x", &json(r#"{"device_keys":{"k":2}}"#));
    same(&store.keys_query(), r#"{"device_keys":{"@a:x":{"DEVICEID":{"k":1}}}}"#);
}

#[test]
fn cross_signing_keys_are_merged_without_auth() {
    let mut store = KeyStore::new();
    let answer = store.device_signing_upload(json(r#"{"master_key":1}"#));
    same(&answer, "{}");
    same(&store.keys_query(), r#"{"device_keys":{}}"#);
    store.keys_upload("@a:x", &json(r#"{"device_keys":{}}"#));
    store.device_signing_upload(json(r#"{"auth":{"x":1},"master_key":{"m":1}}"#));
    same(
        &store.keys_query(),
        r#"{"device_keys":{"@a:x":{"DEVICEID":{}}},"master_key":{"m":1}}"#,
    );
    // What is no object changes nothing.
    store.device_signing_upload(json("[1]"));
    same(
        &store.keys_query(),
        r#"{"device_keys":{"@a:x":{"DEVICEID":{}}},"master_key":{"m":1}}"#,
    );
}

#[test]
fn signatures_are_merged_where_some_are() {
    let mut store = KeyStore::new();
    store.keys_upload("@a:x", &json(r#"{"device_keys":{"signatures":{"@a:x":{"one":"1"}}}}"#));
    let answer = store.signatures_upload(
        "@a:x",
        &json(r#"{"@a:x":{"DEVICEID":{"signatures":{"@a:x":{"one":"new","two":"2"}}}}}"#),
    );
    same(&answer, "{}");
    same(
        &store.keys_query(),
        r#"{"device_keys":{"@a:x":{"DEVICEID":{"signatures":{"@a:x":{"one":"new","two":"2"}}}}}}"#,
    );
    // Signatures of another device are not for us.
    store.signatures_upload("@a:x", &json(r#"{"@a:x":{"OTHER":{"signatures":{"@a:x":{"three":"3"}}}}}"#));
    same(
        &store.keys_query(),
        r#"{"device_keys":{"@a:x":{"DEVICEID":{"signatures":{"@a:x":{"one":"new","two":"2"}}}}}}"#,
    );
}

#[test]
fn signatures_without_a_place_are_dropped() {
    let mut store = KeyStore::new();
    let upload = json(r#"{"@a:x":{"DEVICEID":{"signatures":{"@a:x":{"one":"1"}}}}}"#);
    store.signatures_upload("@a:x", &upload);
    assert!(store.keys.is_none());
    store.keys_upload("@a:x", &json(r#"{"device_keys":{}}"#));
    store.signatures_upload("@a:x", &upload);
    same(&store.keys_query(), r#"{"device_keys":{"@a:x":{"DEVICEID":{}}}}"#);
}

#[test]
fn pointers_are_unescaped() {
    assert_eq!(steps_of("/a~1b/~01/c"), vec!["a/b".to_owned(), "~1".to_owned(), "c".to_owned()]);
    let value = json(r#"{"a/b":[10,{"x":1}]}"#);
    assert_eq!(value.at(&steps_of("/a~1b/1/x")), Some(&Json::number("1")));
    assert_eq!(value.at(&steps_of("/a~1b/01")), None);
    assert_eq!(value.at(&steps_of("/a~1b/+1")), None);
    assert_eq!(value.at(&steps_of("/a~1b/2")), None);
    assert_eq!(value.at(&steps_of("/a~1b/0")), Some(&Json::number("10")));
    let changed = value.set_at(&steps_of("/a~1b/0"), 0, Json::Null);
    same(&changed, r#"{"a/b":[null,{"x":1}]}"#);
    let same_as_before = changed.set_at(&steps_of("/nowhere/0"), 0, Json::Null);
    same(&same_as_before, r#"{"a/b":[null,{"x":1}]}"#);
}
