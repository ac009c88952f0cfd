use neutrino_http::json::Json;
use neutrino_http::response::Response;
use neutrino_http::stubs::{
    answer_provision, begin_registration, get_account_data, get_capabilities, get_login,
    get_room_keys, localpart_of, post_login, post_register, profile, pushers_set, requested_login,
    user_id, versions, AuthUser, Registration, StartupError, TokenError,
};

fn from_value(value: &serde_json::Value) -> Json {
    match value {
        serde_json::Value::Null => Json::Null,
        serde_json::Value::Bool(b) => Json::Bool(*b),
        serde_json::Value::Number(n) => Json::Number(n.to_string()),
        serde_json::Value::String(s) => Json::Str(s.clone()),
        serde_json::Value::Array(items) => Json::Array(items.iter().map(from_value).collect()),
        serde_json::Value::Object(map) => {
            Json::Object(map.iter().map(|(k, v)| (k.clone(), from_value(v))).collect())
        }
    }
}

fn to_value(json: &Json) -> serde_json::Value {
    match json {
        Json::Null => serde_json::Value::Null,
        Json::Bool(b) => serde_json::Value::Bool(*b),
        Json::Number(n) => serde_json::from_str(n).unwrap(),
        Json::Str(s) => serde_json::Value::String(s.clone()),
        Json::Array(items) => serde_json::Value::Array(items.iter().map(to_value).collect()),
        Json::Object(members) => {
            let pairs = members.iter().map(|(k, v)| (k.clone(), to_value(v)));
            serde_json::Value::Object(pairs.collect())
        }
    }
}

fn json(text: &str) -> Json {
    from_value(&serde_json::from_str(text).unwrap())
}

fn same(json: &Json, text: &str) {
    let wanted: serde_json::Value = serde_json::from_str(text).unwrap();
    assert_eq!(to_value(json), wanted);
}

fn answered(response: &Response, status: u16, body: &str) {
    assert_eq!(response.status, status);
    same(&response.body, body);
}

#[test]
fn localparts() {
    assert_eq!(localpart_of("@bob:server"), "bob");
    assert_eq!(localpart_of("@bob:server:8448"), "bob");
    assert_eq!(localpart_of("@bob"), "bob");
    assert_eq!(localpart_of("bob"), "bob");
    assert_eq!(localpart_of("bob:server"), "bob:server");
    assert_eq!(localpart_of(""), "");
    assert_eq!(localpart_of("@"), "");
    assert_eq!(localpart_of(&user_id("alice", "example.org")), "alice");
}

#[test]
fn canned_answers() {
    same(
        &versions(),
        r#"{"unstable_features":{"org.matrix.simplified_msc3575":true,"org.matrix.msc4222":true},
            "versions":["v1.16"]}"#,
    );
    same(&get_login(), r#"{"flows":[{"type":"m.login.password"}]}"#);
    same(&profile(), r#"{"displayname":"Alice"}"#);
    let none = r#"{"errcode":"M_NOT_FOUND","error":"No current backup version"}"#;
    answered(&get_account_data(), 404, none);
    answered(&get_room_keys(), 404, none);
    answered(&pushers_set(), 200, "{}");
    same(
        &get_capabilities(),
        r#"{"capabilities":{"m.room_versions":{"default":"12","available":{"12":"stable"}}}}"#,
    );
}

#[test]
fn registration_asks_for_auth_first() {
    let flows = r#"{"flows":[{"stages":["m.login.dummy"]}],"params":{},
        "session":"neutrino-register-session"}"#;
    answered(&post_register(&json("{}"), "@a:x", "x"), 401, flows);
    answered(
        &post_register(&json(r#"{"auth":{}}"#), "@a:x", "x"),
        200,
        r#"{"user_id":"@a:x","access_token":"syt_1234567890abcdef","home_server":"x",
            "device_id":"DEVICEID"}"#,
    );
    answered(
        &post_register(&json(r#"{"auth":null,"device_id":"PHONE"}"#), "@a:x", "x"),
        200,
        r#"{"user_id":"@a:x","access_token":"syt_1234567890abcdef","home_server":"x",
            "device_id":"PHONE"}"#,
    );
}

#[test]
fn registration_of_several_users() {
    match begin_registration(&json(r#"{"auth":{},"username":"@bob:x","device_id":7}"#)) {
        Registration::Provision { requested, device_id } => {
            assert_eq!(requested.as_deref(), Some("bob"));
            assert_eq!(device_id, "DEVICEID");
        }
        Registration::Answered(_) => panic!("not answered yet"),
    }
    assert!(matches!(begin_registration(&json("{}")), Registration::Answered(_)));
    answered(
        &answer_provision(Ok(("@bob:x".to_owned(), "tok".to_owned())), "x", "D"),
        200,
        r#"{"user_id":"@bob:x","access_token":"tok","home_server":"x","device_id":"D"}"#,
    );
    answered(
        &answer_provision(Err("bad name".to_owned()), "x", "D"),
        400,
        r#"{"errcode":"M_INVALID_USERNAME","error":"bad name"}"#,
    );
}

#[test]
fn login_names() {
    answered(
        &post_login("@a:x", "x"),
        200,
        r#"{"user_id":"@a:x","access_token":"syt_1234567890abcdef","home_server":"x",
            "device_id":"DEVICEID"}"#,
    );
    let name = |body: &str| requested_login(&json(body));
    assert_eq!(name(r#"{"identifier":{"user":"@bob:x"},"user":"carol"}"#).as_deref(), Some("bob"));
    assert_eq!(name(r#"{"user":"carol"}"#).as_deref(), Some("carol"));
    // One that is there but no text hides the other.
    assert_eq!(name(r#"{"identifier":{"user":1},"user":"carol"}"#), None);
    assert_eq!(name("{}"), None);
}

#[test]
fn callers() {
    assert_eq!(AuthUser::configured("@a:x".to_owned()).map(|u| u.0), Ok("@a:x".to_owned()));
    let refusal = AuthUser::configured("nobody".to_owned()).unwrap_err();
    assert_eq!(refusal.status, 500);
    assert_eq!(refusal.body.str_at("errcode").map(|s| s.as_str()), Some("M_UNKNOWN"));
    let complaint = |id: &str| {
        let refusal = AuthUser::configured(id.to_owned()).unwrap_err();
        refusal.body.str_at("error").unwrap().clone()
    };
    assert_eq!(complaint("nobody"), "leading sigil is incorrect or missing");
    assert_eq!(complaint("@nobody"), "required colon is missing");
    assert_eq!(complaint("@a:b c"), "server name is not a valid IP address or domain name");
    assert_eq!(complaint("@a\0:x"), "identifier contains invalid characters");
    let long: String = (0..256).map(|_| 'a').collect();
    assert_eq!(complaint(&long), "ID exceeds 255 bytes");
    assert_eq!(AuthUser::named(Ok("@b:x".to_owned())).map(|u| u.0), Ok("@b:x".to_owned()));
    answered(
        &AuthUser::named(Err(TokenError::Missing)).unwrap_err(),
        401,
        r#"{"errcode":"M_MISSING_TOKEN","error":"Missing access token"}"#,
    );
    answered(
        &AuthUser::named(Err(TokenError::Unknown)).unwrap_err(),
        401,
        r#"{"errcode":"M_UNKNOWN_TOKEN","error":"Unrecognised access token"}"#,
    );
}

#[test]
fn startup_errors_in_words() {
    assert_eq!(
        StartupError::Tempfile("full".to_owned()).to_text(),
        "creating db tempfile: full"
    );
    assert_eq!(
        StartupError::Store("locked".to_owned()).to_text(),
        "opening sqlite store: locked"
    );
}
