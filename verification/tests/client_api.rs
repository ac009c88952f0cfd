use neutrino_http::event::Event;
use neutrino_http::json::Json;
use neutrino_http::membership::{
    answer_emitted, invites_by_federation, joins_by_federation, leaves_by_federation, plan_join,
    plan_join_by_id_or_alias, plan_leave, plan_targeted, plan_unban, Plan,
};
use neutrino_http::messages::{
    answer_messages, parse_dir, parse_limit, parse_token, plan_messages, PageParams, PageRequest,
};
use neutrino_http::response::Response;
use neutrino_http::room_actor::{Effect, RoomActorError};
use neutrino_http::rooms::{
    create_draft, create_room_response, default_power_levels, join_rule_for, members_response,
    persisted_event, plan_initial_events, plan_write, state_event_response, state_request,
    state_response, write_response, CreateRoomError, RoomBirth, ShownEvent, StateFormat,
};
use neutrino_http::store::Direction;

fn from_value(value: &serde_json::Value) -> Json {
    match value {
        serde_json::Value::Null => Json::Null,
        serde_json::Value::Bool(b) => Json::Bool(*b),
        serde_json::Value::Number(n) => Json::Number(n.to_string()),
        serde_json::Value::String(s) => Json::Str(s.clone()),
        serde_json::Value::Array(items) => Json::Array(items.iter().map(from_value).collect()),
        serde_json::Value::Object(map) => {
            Json::Object(map.iter().map(|(k, v)| (k.clone(), from_value(v))).collect())
        }
    }
}

fn to_value(json: &Json) -> serde_json::Value {
    match json {
        Json::Null => serde_json::Value::Null,
        Json::Bool(b) => serde_json::Value::Bool(*b),
        Json::Number(n) => serde_json::from_str(n).unwrap(),
        Json::Str(s) => serde_json::Value::String(s.clone()),
        Json::Array(items) => serde_json::Value::Array(items.iter().map(to_value).collect()),
        Json::Object(members) => {
            let pairs = members.iter().map(|(k, v)| (k.clone(), to_value(v)));
            serde_json::Value::Object(pairs.collect())
        }
    }
}

fn json(text: &str) -> Json {
    from_value(&serde_json::from_str(text).unwrap())
}

fn same(json: &Json, text: &str) {
    let wanted: serde_json::Value = serde_json::from_str(text).unwrap();
    assert_eq!(to_value(json), wanted);
}

fn event(id: &str, ty: &str, sender: &str, state_key: Option<&str>, content: &str) -> Event {
    Event {
        event_id: id.to_owned(),
        room_id: "!r:us.example".to_owned(),
        sender: sender.to_owned(),
        event_type: ty.to_owned(),
        state_key: state_key.map(|k| k.to_owned()),
        content: json(content),
        prev_events: vec![],
        prev_state_events: vec![],
        rejected: false,
        soft_failed: false,
        raw: format!("raw {id}"),
    }
}

fn member(id: &str, user: &str, membership: &str) -> Event {
    let content = format!(r#"{{"membership":"{membership}"}}"#);
    event(id, "m.room.member", user, Some(user), &content)
}

fn answered(response: &Response, status: u16, body: &str) {
    assert_eq!(response.status, status);
    same(&response.body, body);
}

fn refused(plan: &Plan, status: u16, errcode: &str) {
    match plan {
        Plan::Answer(response) => {
            assert_eq!(response.status, status);
            assert_eq!(response.body.str_at("errcode").map(|s| s.as_str()), Some(errcode));
        }
        Plan::Emit(_) => panic!("must be refused"),
    }
}

fn emitted(plan: &Plan, user: &str, body: &str) {
    match plan {
        Plan::Emit(draft) => {
            assert_eq!(draft.sender, "@me:x");
            assert_eq!(draft.event_type, "m.room.member");
            assert_eq!(draft.state_key.as_deref(), Some(user));
            same(&draft.content, body);
        }
        Plan::Answer(response) => panic!("{response:?}"),
    }
}

#[test]
fn join_rule_explicit_preset_wins_over_visibility() {
    // An explicit preset overrides visibility entirely.
    assert_eq!(
        join_rule_for(&json(r#"{ "preset": "public_chat", "visibility": "private" }"#)),
        "public"
    );
    assert_eq!(
        join_rule_for(&json(r#"{ "preset": "private_chat", "visibility": "public" }"#)),
        "invite"
    );
    assert_eq!(
        join_rule_for(&json(r#"{ "preset": "trusted_private_chat" }"#)),
        "invite"
    );
}

#[test]
fn join_rule_derived_from_visibility_when_no_preset() {
    assert_eq!(join_rule_for(&json(r#"{ "visibility": "public" }"#)), "public");
    assert_eq!(join_rule_for(&json(r#"{ "visibility": "private" }"#)), "invite");
}

#[test]
fn join_rule_defaults_to_invite() {
    // No preset, no visibility ⇒ private (invite-only), and an
    // unrecognised preset is treated conservatively as invite-only.
    assert_eq!(join_rule_for(&json("{}")), "invite");
    assert_eq!(
        join_rule_for(&json(r#"{ "preset": "weird_preset" }"#)),
        "invite"
    );
}

#[test]
fn a_room_is_planned_in_order() {
    let body = json(
        r#"{"preset":"public_chat","name":"N","topic":"T","is_direct":true,
            "invite":["@me:x","@b:x","nobody",5]}"#,
    );
    let plan = plan_initial_events("@me:x", &body);
    // Whoever creates the room sends all of its first events.
    assert!(plan.iter().all(|d| d.sender == "@me:x"));
    let types: Vec<(&str, &str)> =
        plan.iter().map(|d| (d.event_type.as_str(), d.state_key.as_deref().unwrap())).collect();
    assert_eq!(
        types,
        vec![
            ("m.room.member", "@me:x"),
            ("m.room.power_levels", ""),
            ("m.room.join_rules", ""),
            ("m.room.history_visibility", ""),
            ("m.room.name", ""),
            ("m.room.topic", ""),
            ("m.room.member", "@b:x"),
        ]
    );
    same(&plan[0].content, r#"{"membership":"join"}"#);
    same(&plan[2].content, r#"{"join_rule":"public"}"#);
    same(&plan[3].content, r#"{"history_visibility":"shared"}"#);
    same(&plan[4].content, r#"{"name":"N"}"#);
    same(&plan[5].content, r#"{"topic":"T"}"#);
    same(&plan[6].content, r#"{"membership":"invite","is_direct":true}"#);
    assert_eq!(plan_initial_events("@me:x", &json("{}")).len(), 4);
    let create = create_draft("@me:x");
    assert_eq!(create.sender, "@me:x");
    assert_eq!(create.event_type, "m.room.create");
    assert_eq!(create.state_key.as_deref(), Some(""));
    same(&create.content, r#"{"room_version":"org.matrix.msc4242.12"}"#);
}

#[test]
fn power_levels_of_a_new_room() {
    same(
        &default_power_levels(),
        r#"{"ban":50,"events":{"m.room.name":50,"m.room.power_levels":100,
            "m.room.history_visibility":100,"m.room.canonical_alias":50,"m.room.tombstone":100,
            "m.room.server_acl":100},"events_default":0,"invite":0,"kick":50,"redact":50,
            "state_default":50,"users":{},"users_default":0,"notifications":{"room":50}}"#,
    );
}

#[test]
fn a_room_is_born_event_by_event() {
    let mut birth = RoomBirth::start("@me:x", &json("{}"));
    let mut n = 0;
    while let Some(draft) = birth.next() {
        let mut stored = event("$e", &draft.event_type, &draft.sender, draft.state_key.as_deref(), "{}");
        stored.event_id = format!("$e{n}");
        let effects = vec![Effect::UpdateCurrentState(0), Effect::Persist(stored)];
        birth = birth.applied(Ok(effects)).unwrap();
        n += 1;
    }
    assert_eq!(birth.built.len(), 4);
    assert_eq!(birth.built[3].event_id, "$e3");
    let birth = RoomBirth::start("@me:x", &json("{}"));
    assert_eq!(
        birth.applied(Ok(vec![Effect::UpdateCurrentState(0)])),
        Err(CreateRoomError::NotApplied)
    );
    let birth = RoomBirth::start("@me:x", &json("{}"));
    assert_eq!(
        birth.applied::<u8>(Err(CreateRoomError::Build("no".to_owned()))),
        Err(CreateRoomError::Build("no".to_owned()))
    );
    assert_eq!(persisted_event::<u8>(&vec![]), Err(CreateRoomError::NotApplied));
}

#[test]
fn room_creation_is_answered() {
    answered(&create_room_response(Ok("!r:x".to_owned()), Ok(())), 200, r#"{"room_id":"!r:x"}"#);
    answered(
        &create_room_response(Ok("!r:x".to_owned()), Err("io".to_owned())),
        500,
        r#"{"errcode":"M_UNKNOWN","error":"io"}"#,
    );
    let error = |e| create_room_response(Err(e), Ok(()));
    answered(
        &error(CreateRoomError::Build("x".to_owned())),
        500,
        r#"{"errcode":"M_UNKNOWN","error":"building initial event: x"}"#,
    );
    answered(
        &error(CreateRoomError::Apply("x".to_owned())),
        500,
        r#"{"errcode":"M_UNKNOWN","error":"initial event rejected by auth rules: x"}"#,
    );
    answered(
        &error(CreateRoomError::NotApplied),
        500,
        r#"{"errcode":"M_UNKNOWN","error":"initial event produced no persist effect"}"#,
    );
}

#[test]
fn rooms_are_read() {
    let events = vec![Some(json(r#"{"a":1}"#)), None, Some(json(r#"{"b":2}"#))];
    answered(&members_response("!r:x", Ok(events)), 200, r#"{"chunk":[{"a":1},{"b":2}]}"#);
    assert_eq!(members_response("nope", Ok(vec![])).status, 400);
    assert_eq!(members_response("!r:x", Err("io".to_owned())).status, 500);
    answered(&state_response("!r:x", Ok(vec![json("{}")])), 200, "[{}]");
    assert_eq!(state_response("nope", Ok(vec![])).status, 400);
    assert_eq!(state_response("!r:x", Err("io".to_owned())).status, 500);
    let complaint = |id: &str| {
        let response = members_response(id, Ok(vec![]));
        assert_eq!(response.body.str_at("errcode").map(|s| s.as_str()), Some("M_INVALID_PARAM"));
        response.body.str_at("error").unwrap().clone()
    };
    assert_eq!(complaint("nope"), "leading sigil is incorrect or missing");
    assert_eq!(complaint(""), "leading sigil is incorrect or missing");
    assert_eq!(complaint("!a\0b"), "identifier contains invalid characters");
    let long: String = (0..128).map(|_| '\u{e9}').collect();
    assert_eq!(complaint(&long), "ID exceeds 255 bytes");
}

#[test]
fn one_state_event_is_read() {
    assert_eq!(state_request("!r:x", None), Ok(StateFormat::Content));
    assert_eq!(state_request("!r:x", Some("content")), Ok(StateFormat::Content));
    assert_eq!(state_request("!r:x", Some("event")), Ok(StateFormat::Event));
    answered(
        &state_request("!r:x", Some("raw")).unwrap_err(),
        400,
        r#"{"errcode":"M_INVALID_PARAM","error":"Unknown format: raw"}"#,
    );
    let shown = || ShownEvent { whole: json(r#"{"type":"t"}"#), content: json(r#"{"c":1}"#) };
    answered(&state_event_response(StateFormat::Content, Ok(Some(shown()))), 200, r#"{"c":1}"#);
    answered(&state_event_response(StateFormat::Event, Ok(Some(shown()))), 200, r#"{"type":"t"}"#);
    answered(
        &state_event_response(StateFormat::Event, Ok(None)),
        404,
        r#"{"errcode":"M_NOT_FOUND","error":"Event not found."}"#,
    );
    assert_eq!(state_event_response(StateFormat::Event, Err("io".to_owned())).status, 500);
}

#[test]
fn writes_are_answered() {
    answered(&write_response("!r:x", Ok("$e".to_owned())), 200, r#"{"event_id":"$e"}"#);
    assert_eq!(write_response("nope", Ok("$e".to_owned())).status, 400);
    answered(
        &write_response("!r:x", Err(RoomActorError::Rejected)),
        403,
        r#"{"errcode":"M_FORBIDDEN","error":"event rejected by auth rules"}"#,
    );
    answered(
        &write_response("!r:x", Err(RoomActorError::UnknownRoom)),
        404,
        r#"{"errcode":"M_NOT_FOUND","error":"no such room"}"#,
    );
    answered(
        &write_response("!r:x", Err(RoomActorError::Build("x".to_owned()))),
        400,
        r#"{"errcode":"M_BAD_JSON","error":"building event: x"}"#,
    );
    answered(
        &write_response("!r:x", Err(RoomActorError::ActorGone)),
        500,
        r#"{"errcode":"M_UNKNOWN","error":"room actor unavailable"}"#,
    );
}

#[test]
fn joins() {
    let me = "@me:x";
    emitted(&plan_join("!r:x", me, None, Ok(None)), me, r#"{"membership":"join"}"#);
    let reason = json(r#"{"reason":"hi"}"#);
    emitted(
        &plan_join("!r:x", me, Some(&reason), Ok(Some(member("$m", me, "invite")))),
        me,
        r#"{"membership":"join","reason":"hi"}"#,
    );
    // Joined already: answered without another event.
    match plan_join("!r:x", me, None, Ok(Some(member("$m", me, "join")))) {
        Plan::Answer(response) => answered(&response, 200, r#"{"room_id":"!r:x"}"#),
        Plan::Emit(_) => panic!("must be answered"),
    }
    refused(&plan_join("nope", me, None, Ok(None)), 400, "M_INVALID_PARAM");
    refused(&plan_join("!r:x", me, None, Err("io".to_owned())), 500, "M_UNKNOWN");
    refused(&plan_join_by_id_or_alias("#a:x", me, None, Ok(None)), 404, "M_NOT_FOUND");
    refused(&plan_join_by_id_or_alias("#a", me, None, Ok(None)), 400, "M_INVALID_PARAM");
    emitted(&plan_join_by_id_or_alias("!r:x", me, None, Ok(None)), me, r#"{"membership":"join"}"#);
    answered(&answer_emitted(Some("!r:x"), Ok(())), 200, r#"{"room_id":"!r:x"}"#);
    answered(&answer_emitted(None, Ok(())), 200, "{}");
    assert_eq!(answer_emitted(None, Err(RoomActorError::Rejected)).status, 403);
}

#[test]
fn leaves() {
    let me = "@me:x";
    for membership in ["invite", "join", "knock"] {
        let plan = plan_leave("!r:x", me, None, Ok(true), Ok(Some(member("$m", me, membership))));
        emitted(&plan, me, r#"{"membership":"leave"}"#);
    }
    for held in [None, Some(member("$m", me, "leave")), Some(member("$m", me, "ban"))] {
        match plan_leave("!r:x", me, None, Ok(true), Ok(held)) {
            Plan::Answer(response) => answered(&response, 200, "{}"),
            Plan::Emit(_) => panic!("nothing to leave"),
        }
    }
    refused(&plan_leave("!r:x", me, None, Ok(false), Ok(None)), 404, "M_NOT_FOUND");
    refused(&plan_leave("!r:x", me, None, Err("io".to_owned()), Ok(None)), 500, "M_UNKNOWN");
    refused(&plan_leave("nope", me, None, Ok(true), Ok(None)), 400, "M_INVALID_PARAM");
}

#[test]
fn others_are_kicked_and_banned() {
    let body = json(r#"{"user_id":"@b:x","reason":"spam"}"#);
    emitted(
        &plan_targeted("!r:x", "@me:x", Some(&body), "ban"),
        "@b:x",
        r#"{"membership":"ban","reason":"spam"}"#,
    );
    refused(&plan_targeted("!r:x", "@me:x", None, "ban"), 400, "M_MISSING_PARAM");
    refused(&plan_targeted("!r:x", "@me:x", Some(&json(r#"{"user_id":"b"}"#)), "ban"), 400, "M_INVALID_PARAM");
    refused(&plan_targeted("nope", "@me:x", Some(&body), "ban"), 400, "M_INVALID_PARAM");
    emitted(
        &plan_unban("!r:x", "@me:x", Some(&body), Ok(true), Ok(Some(member("$m", "@b:x", "ban")))),
        "@b:x",
        r#"{"membership":"leave","reason":"spam"}"#,
    );
    let plan = plan_unban("!r:x", "@me:x", Some(&body), Ok(true), Ok(Some(member("$m", "@b:x", "join"))));
    refused(&plan, 403, "M_BAD_STATE");
    refused(&plan_unban("!r:x", "@me:x", Some(&body), Ok(false), Ok(None)), 404, "M_NOT_FOUND");
    refused(&plan_unban("!r:x", "@me:x", None, Ok(true), Ok(None)), 400, "M_MISSING_PARAM");
}

#[test]
fn writes_are_made_by_whoever_asks() {
    let content = || json(r#"{"body":"hi"}"#);
    let message = plan_write("@me:x", "!r:x", "m.room.message", None, content()).unwrap();
    assert_eq!(message.sender, "@me:x");
    assert_eq!(message.event_type, "m.room.message");
    assert_eq!(message.state_key, None);
    same(&message.content, r#"{"body":"hi"}"#);
    let state = plan_write("@me:x", "!r:x", "m.room.topic", Some(""), content()).unwrap();
    assert_eq!(state.state_key.as_deref(), Some(""));
    let refusal = plan_write("@me:x", "nope", "m.room.topic", Some(""), content()).unwrap_err();
    assert_eq!(refusal.status, 400);
    assert_eq!(refusal.body.str_at("errcode").map(|s| s.as_str()), Some("M_INVALID_PARAM"));
}

#[test]
fn other_servers_are_asked_only_where_they_must_be() {
    let fault = || Err("io".to_owned());
    let candidates = vec!["peer.example".to_owned()];
    assert!(joins_by_federation(&candidates, &Ok(false)));
    assert!(!joins_by_federation(&candidates, &Ok(true)));
    assert!(!joins_by_federation(&candidates, &fault()));
    assert!(!joins_by_federation(&vec![], &Ok(false)));
    assert!(leaves_by_federation(&Ok(false), &Ok(Some(1))));
    assert!(!leaves_by_federation::<u8>(&Ok(false), &Ok(None)));
    assert!(!leaves_by_federation::<u8>(&Ok(false), &Err("io".to_owned())));
    assert!(!leaves_by_federation(&Ok(true), &Ok(Some(1))));
    assert!(!leaves_by_federation(&fault(), &Ok(Some(1))));
    assert_eq!(
        invites_by_federation("@b:peer.example:8448", "us.example"),
        Some("peer.example:8448".to_owned())
    );
    assert_eq!(invites_by_federation("@b:us.example", "us.example"), None);
    assert_eq!(invites_by_federation("b", "us.example"), None);
}

#[test]
fn page_parameters() {
    assert_eq!(parse_dir(None), Ok(Direction::Forward));
    assert_eq!(parse_dir(Some("f")), Ok(Direction::Forward));
    assert_eq!(parse_dir(Some("b")), Ok(Direction::Backward));
    answered(
        &parse_dir(Some("x")).unwrap_err(),
        400,
        r#"{"errcode":"M_INVALID_PARAM","error":"dir must be 'b' or 'f', got 'x'"}"#,
    );
    assert_eq!(parse_token(None, "from"), Ok(None));
    assert_eq!(parse_token(Some(""), "from"), Ok(None));
    assert_eq!(parse_token(Some("END"), "from"), Ok(None));
    assert_eq!(parse_token(Some("12"), "from"), Ok(Some(12)));
    assert_eq!(parse_token(Some("9223372036854775807"), "from"), Ok(Some(9223372036854775807)));
    answered(
        &parse_token(Some("9223372036854775808"), "to").unwrap_err(),
        400,
        r#"{"errcode":"M_INVALID_PARAM","error":"'to' parameter is invalid"}"#,
    );
    assert_eq!(parse_limit(None), Ok(10));
    assert_eq!(parse_limit(Some("5")), Ok(5));
    assert_eq!(parse_limit(Some("5000")), Ok(1000));
    assert_eq!(parse_limit(Some("-1")).unwrap_err().status, 400);
}

fn params<'a>() -> PageParams<'a> {
    PageParams { dir: Some("b"), from: Some("7"), to: None, limit: Some("3") }
}

#[test]
fn pages_are_for_members() {
    let me = "@me:x";
    let joined = || Ok(Some(member("$m", me, "join")));
    assert_eq!(
        plan_messages("!r:x", params(), joined()),
        Ok(PageRequest { dir: Direction::Backward, from: Some(7), to: None, limit: 3 })
    );
    answered(
        &plan_messages("!r:x", params(), Ok(None)).unwrap_err(),
        403,
        r#"{"errcode":"M_FORBIDDEN","error":"You aren't a member of the room."}"#,
    );
    // What is malformed is refused as such, whoever sends it.
    let odd = PageParams { limit: Some("x"), ..params() };
    assert_eq!(plan_messages("!r:x", odd, Ok(None)).unwrap_err().status, 400);
    assert_eq!(plan_messages("nope", params(), joined()).unwrap_err().status, 400);
    assert_eq!(plan_messages("!r:x", params(), Err("io".to_owned())).unwrap_err().status, 500);
}

#[test]
fn pages_are_answered() {
    let page = |dir, from| PageRequest { dir, from, to: None, limit: 3 };
    let chunk = || Ok((vec![json(r#"{"a":1}"#)], Some(4)));
    answered(
        &answer_messages(&page(Direction::Backward, None), Ok(9), chunk()),
        200,
        r#"{"chunk":[{"a":1}],"start":"9","end":"4"}"#,
    );
    answered(
        &answer_messages(&page(Direction::Forward, None), Err("io".to_owned()), Ok((vec![], None))),
        200,
        r#"{"chunk":[],"start":"0"}"#,
    );
    answered(
        &answer_messages(&page(Direction::Backward, Some(7)), Ok(9), chunk()),
        200,
        r#"{"chunk":[{"a":1}],"start":"7","end":"4"}"#,
    );
    let failed = answer_messages(&page(Direction::Backward, None), Err("io".to_owned()), chunk());
    assert_eq!(failed.status, 500);
    let failed = answer_messages(&page(Direction::Forward, None), Ok(9), Err("io".to_owned()));
    assert_eq!(failed.status, 500);
    // A token that a page ends with is where the next one starts.
    assert_eq!(parse_token(Some("4"), "from"), Ok(Some(4)));
}
