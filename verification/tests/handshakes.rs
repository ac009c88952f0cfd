use neutrino_http::backfill_out::{other_servers, Round, RoundAction, RoundPhase, RoundReport};
use neutrino_http::event::Event;
use neutrino_http::ids::ROOM_VERSION_ID;
use neutrino_http::invite::{
    accept_invite, build_invite_room_state, dispose, invitation_to_json, invite_content,
    read_invite_request, with_invite_room_state, Disposition, InviteAction, InvitePhase,
    InviteReport, OutboundInvite, ReceivedInvite,
};
use neutrino_http::join::{
    complete_membership_template, find_create, gather, parse_server_names, FederatedJoin,
    JoinAction, JoinPhase, JoinReport,
};
use neutrino_http::json::Json;
use neutrino_http::leave::{RejectAction, RejectPhase, RejectReport, Rejection};
use neutrino_http::make_join::{
    answer_template, check_can_join, check_template_ids, plan_make_join, ver_includes,
    ver_includes_ours,
};
use neutrino_http::make_leave::plan_make_leave;
use neutrino_http::response::{FedError, Response};
use neutrino_http::room_actor::{RoomActorError, StateEntry};
use neutrino_http::send_join::{
    accept_join, accept_membership, answer_join, answer_leave, Handshake, JoinBody, Received,
};

fn from_value(value: &serde_json::Value) -> Json {
    match value {
        serde_json::Value::Null => Json::Null,
        serde_json::Value::Bool(b) => Json::Bool(*b),
        serde_json::Value::Number(n) => Json::Number(n.to_string()),
        serde_json::Value::String(s) => Json::Str(s.clone()),
        serde_json::Value::Array(items) => Json::Array(items.iter().map(from_value).collect()),
        serde_json::Value::Object(map) => {
            Json::Object(map.iter().map(|(k, v)| (k.clone(), from_value(v))).collect())
        }
    }
}

fn to_value(json: &Json) -> serde_json::Value {
    match json {
        Json::Null => serde_json::Value::Null,
        Json::Bool(b) => serde_json::Value::Bool(*b),
        Json::Number(n) => serde_json::from_str(n).unwrap(),
        Json::Str(s) => serde_json::Value::String(s.clone()),
        Json::Array(items) => serde_json::Value::Array(items.iter().map(to_value).collect()),
        Json::Object(members) => {
            let pairs = members.iter().map(|(k, v)| (k.clone(), to_value(v)));
            serde_json::Value::Object(pairs.collect())
        }
    }
}

fn json(text: &str) -> Json {
    from_value(&serde_json::from_str(text).unwrap())
}

fn same(json: &Json, text: &str) {
    let wanted: serde_json::Value = serde_json::from_str(text).unwrap();
    assert_eq!(to_value(json), wanted);
}

fn event(id: &str, ty: &str, sender: &str, state_key: Option<&str>, content: &str) -> Event {
    Event {
        event_id: id.to_owned(),
        room_id: "!r:us.example".to_owned(),
        sender: sender.to_owned(),
        event_type: ty.to_owned(),
        state_key: state_key.map(|k| k.to_owned()),
        content: json(content),
        prev_events: vec![],
        prev_state_events: vec![],
        rejected: false,
        soft_failed: false,
        raw: format!("raw {id}"),
    }
}

fn member(id: &str, user: &str, membership: &str) -> Event {
    let content = format!(r#"{{"membership":"{membership}"}}"#);
    event(id, "m.room.member", user, Some(user), &content)
}

const HEADER: &str = r#"X-Matrix origin="peer.example",destination="us.example""#;

fn texts(items: &[&str]) -> Vec<String> {
    items.iter().map(|s| s.to_string()).collect()
}

fn failed(response: &Response, status: u16, error: &str) {
    assert_eq!(response.status, status);
    assert_eq!(response.body.str_at("error").map(|s| s.as_str()), Some(error));
}

#[test]
fn parse_server_names_handles_repeats_and_encoded_colon() {
    let got = parse_server_names(Some(
        "server_name=127.0.0.1%3A8008&server_name=other.example&x=y",
    ));
    assert_eq!(
        got,
        vec!["127.0.0.1:8008".to_string(), "other.example".to_string()]
    );
    assert!(parse_server_names(None).is_empty());
}

#[test]
fn server_names_that_are_none_are_dropped() {
    assert_eq!(
        parse_server_names(Some("server_name=a%20b&server_name=&server_name=ok.example&server_name")),
        texts(&["ok.example"])
    );
}

/// A bare protoevent: no `origin_server_ts`, no `hashes`, `depth` and
/// `unsigned` present, `auth_events` absent. Only the two DAG pointer arrays
/// matter.
#[test]
fn complete_template_accepts_protoevent_without_pdu_fields() {
    let our_user = "@alice:us.example";
    let room_id = "!room:resident.example";
    let head = "$aaaaaaaaaaaaaaaaaaaaaaaaaaaaaaaaaaaaaaaaaaa";
    let state_head = "$bbbbbbbbbbbbbbbbbbbbbbbbbbbbbbbbbbbbbbbbbbb";
    let template = json(&format!(
        r#"{{
            "type": "m.room.member",
            "sender": "{our_user}",
            "room_id": "{room_id}",
            "state_key": "{our_user}",
            "content": {{ "membership": "join" }},
            "prev_events": ["{head}"],
            "prev_state_events": ["{state_head}"],
            "depth": 4,
            "unsigned": {{}}
        }}"#
    ));
    let draft = complete_membership_template(&template, room_id, our_user, "join", "")
        .expect("protoevent template completes");
    let v = to_value(&draft.to_json(1_700_000_000_000));
    assert_eq!(v["prev_events"], to_value(&json(&format!(r#"["{head}"]"#))));
    assert_eq!(v["prev_state_events"], to_value(&json(&format!(r#"["{state_head}"]"#))));
    assert_eq!(v["content"]["membership"], "join");
    assert!(v["origin_server_ts"].is_u64(), "we stamp the timestamp");
}

/// Pointer arrays are still validated: a malformed event id fails the
/// completion rather than being carried into an event we would author.
#[test]
fn complete_template_rejects_malformed_dag_pointer() {
    let our_user = "@alice:us.example";
    let room_id = "!room:resident.example";
    let template = json(
        r#"{
            "prev_events": ["not-an-event-id"],
            "prev_state_events": []
        }"#,
    );
    assert!(complete_membership_template(&template, room_id, our_user, "join", "").is_none());
}

#[test]
fn a_hostile_template_is_not_echoed() {
    let hostile = json(
        r#"{"type":"m.room.power_levels","sender":"@evil:x","room_id":"!other:x","state_key":"",
            "content":{"membership":"ban"},"prev_events":["$p"],"prev_state_events":["$s"]}"#,
    );
    let draft = complete_membership_template(&hostile, "!r:x", "@me:us", "leave", "Me").unwrap();
    same(
        &draft.to_json(7),
        r#"{"type":"m.room.member","room_id":"!r:x","sender":"@me:us","state_key":"@me:us",
            "content":{"membership":"leave","displayname":"Me"},"prev_events":["$p"],
            "prev_state_events":["$s"],"origin_server_ts":7}"#,
    );
}

fn template() -> Json {
    json(r#"{"prev_events":["$p"],"prev_state_events":["$s"]}"#)
}

fn joining(candidates: &[&str]) -> FederatedJoin {
    FederatedJoin::begin(
        "!r:us.example".to_owned(),
        "@me:us.example".to_owned(),
        "".to_owned(),
        texts(candidates),
    )
}

fn accepted(state_dag: Vec<Event>) -> JoinReport {
    let state_dag = state_dag.into_iter().map(Some).collect();
    JoinReport::Accepted { state_dag, timeline: vec![], event: None }
}

fn response_of(phase: &JoinPhase) -> &Response {
    match phase {
        JoinPhase::Answered { response } => response,
        other => panic!("{other:?}"),
    }
}

#[test]
fn a_join_runs_its_course() {
    let create = event("$c", "m.room.create", "@a:x", Some(""), "{}");
    let join = joining(&["a", "b"]).step(JoinReport::Template {
        template: template(),
        room_version: ROOM_VERSION_ID.to_owned(),
    });
    match join.action() {
        JoinAction::SendJoin { server, draft, room_version } => {
            assert_eq!((server.as_str(), room_version), ("a", ROOM_VERSION_ID));
            assert_eq!(draft.membership, "join");
            assert_eq!(draft.prev_events, texts(&["$p"]));
        }
        other => panic!("{other:?}"),
    }
    let mut foreign = member("$f", "@a:x", "join");
    foreign.room_id = "!other:x".to_owned();
    let join = join.step(JoinReport::Accepted {
        state_dag: vec![Some(create), None],
        timeline: vec![Some(foreign), Some(member("$k", "@b:x", "join"))],
        event: Some(member("$j", "@me:us.example", "join")),
    });
    assert_eq!(join.action(), JoinAction::CheckRoom(&"!r:us.example".to_owned()));
    let join = join.step(JoinReport::Known(false));
    match join.action() {
        JoinAction::Register(create) => assert_eq!(create.event_id, "$c"),
        other => panic!("{other:?}"),
    }
    let join = join.step(JoinReport::Done);
    // An event of another room is left out.
    match join.action() {
        JoinAction::StageAll { server, room_id, events } => {
            assert_eq!((server.as_str(), room_id.as_str()), ("a", "!r:us.example"));
            let ids: Vec<&str> = events.iter().map(|e| e.event_id.as_str()).collect();
            assert_eq!(ids, vec!["$c", "$k", "$j"]);
        }
        other => panic!("{other:?}"),
    }
    let join = join.step(JoinReport::Done);
    assert_eq!(
        join.action(),
        JoinAction::ReadMember {
            room_id: &"!r:us.example".to_owned(),
            user_id: &"@me:us.example".to_owned(),
        }
    );
    // The worker has not applied the join yet.
    let join = join.step(JoinReport::Member { event: None, time_left: true });
    assert_eq!(join.action(), JoinAction::AwaitStored);
    let join = join.step(JoinReport::Stored);
    let me = member("$j", "@me:us.example", "join");
    let join = join.step(JoinReport::Member { event: Some(me), time_left: true });
    let response = response_of(&join.phase);
    assert_eq!(response.status, 200);
    same(&response.body, r#"{"room_id":"!r:us.example"}"#);
    assert_eq!(join.action(), JoinAction::Answer(response));
}

#[test]
fn what_a_resident_answers_is_gathered_in_order() {
    let some = |id| Some(member(id, "@a:x", "join"));
    let events = gather(vec![some("$1"), None, some("$2")], vec![None, some("$3")], some("$4"));
    let ids: Vec<&str> = events.iter().map(|e| e.event_id.as_str()).collect();
    assert_eq!(ids, vec!["$1", "$2", "$3", "$4"]);
    assert_eq!(gather(vec![None], vec![], None), vec![]);
}

#[test]
fn a_join_falls_over_to_the_next_candidate() {
    failed(response_of(&joining(&[]).phase), 502, "no resident server could be reached");
    let join = joining(&["a", "b"]).step(JoinReport::Failed);
    assert_eq!((join.next, &join.phase), (1, &JoinPhase::AskTemplate));
    assert_eq!(
        join.action(),
        JoinAction::AskTemplate {
            server: &"b".to_owned(),
            room_id: &"!r:us.example".to_owned(),
            user_id: &"@me:us.example".to_owned(),
            ver: ROOM_VERSION_ID,
        }
    );
    let join = join.step(JoinReport::Template {
        template: template(),
        room_version: "1".to_owned(),
    });
    failed(response_of(&join.phase), 502, "resident room version is unsupported");
    let ours = || JoinReport::Template {
        template: template(),
        room_version: ROOM_VERSION_ID.to_owned(),
    };
    let join = joining(&["a"]).step(JoinReport::Template {
        template: json("{}"),
        room_version: ROOM_VERSION_ID.to_owned(),
    });
    failed(response_of(&join.phase), 502, "could not complete the join template");
    let join = joining(&["a"]).step(ours()).step(JoinReport::Failed);
    failed(response_of(&join.phase), 502, "send_join request failed");
    let asked = || joining(&["a"]).step(ours());
    let join = asked().step(accepted(vec![])).step(JoinReport::Known(false));
    failed(response_of(&join.phase), 502, "state DAG is missing the create event");
    let mut foreign = event("$c", "m.room.create", "@a:x", Some(""), "{}");
    foreign.room_id = "!other:x".to_owned();
    let join = asked().step(accepted(vec![foreign])).step(JoinReport::Known(false));
    failed(response_of(&join.phase), 502, "create event is for a different room");
    let join = asked().step(accepted(vec![])).step(JoinReport::Fault("io".to_owned()));
    failed(response_of(&join.phase), 502, "storage error checking room");
    let staging = || asked().step(accepted(vec![])).step(JoinReport::Known(true));
    let join = staging().step(JoinReport::Fault("io".to_owned()));
    failed(response_of(&join.phase), 502, "could not stage room state");
    let reading = || staging().step(JoinReport::Done);
    let join = reading().step(JoinReport::Member { event: None, time_left: false });
    let late = "timed out applying room state; the join is still being processed";
    failed(response_of(&join.phase), 504, late);
    let waiting = || reading().step(JoinReport::Member { event: None, time_left: true });
    failed(response_of(&waiting().step(JoinReport::TimeUp).phase), 504, late);
    failed(response_of(&waiting().step(JoinReport::StoreGone).phase), 500, "store closed while joining");
    failed(response_of(&reading().step(JoinReport::Fault("io".to_owned())).phase), 500, "io");
    // A report that answers nothing that was asked changes nothing.
    assert_eq!(joining(&["a"]).step(JoinReport::Done), joining(&["a"]));
}

#[test]
fn the_create_event_is_found() {
    let events = vec![
        event("$m", "m.room.create", "@a:x", Some("odd"), "{}"),
        event("$n", "m.room.name", "@a:x", Some(""), "{}"),
        event("$c", "m.room.create", "@a:x", Some(""), "{}"),
    ];
    assert_eq!(find_create(&events), 2);
    assert_eq!(find_create(&vec![]), 0);
}

fn rejecting() -> Rejection {
    let invite = event(
        "$i",
        "m.room.member",
        "@host:inviter.example:8448",
        Some("@me:us.example"),
        r#"{"membership":"invite"}"#,
    );
    Rejection::begin(
        "!r:us.example".to_owned(),
        "@me:us.example".to_owned(),
        "".to_owned(),
        &invite,
        "11".to_owned(),
    )
}

fn leave_template(template: Json, spoken: bool) -> RejectReport {
    RejectReport::Template { template, room_version: "12".to_owned(), spoken }
}

fn rejected(rejection: &Rejection) -> u16 {
    match &rejection.phase {
        RejectPhase::Answered { response } => response.status,
        other => panic!("{other:?}"),
    }
}

#[test]
fn an_invite_is_rejected_whatever_the_peer_does() {
    // The server of whoever sent the invite is asked.
    assert_eq!(
        rejecting().action(),
        RejectAction::AskTemplate {
            server: &"inviter.example:8448".to_owned(),
            room_id: &"!r:us.example".to_owned(),
            user_id: &"@me:us.example".to_owned(),
        }
    );
    let asked = rejecting().step(leave_template(template(), true));
    match asked.action() {
        RejectAction::SendLeave { server, draft, room_version } => {
            assert_eq!(server, "inviter.example:8448");
            assert_eq!(draft.membership, "leave");
            assert_eq!(room_version, "12");
        }
        other => panic!("{other:?}"),
    }
    let leave = member("$l", "@me:us.example", "leave");
    let recorded = asked.step(RejectReport::Accepted(leave));
    // It is recorded under the version of the invite, whatever the other server calls it.
    match recorded.action() {
        RejectAction::Record { room_id, user_id, leave, room_version } => {
            assert_eq!((room_id.as_str(), user_id.as_str()), ("!r:us.example", "@me:us.example"));
            assert_eq!(leave.event_id, "$l");
            assert_eq!(room_version, "11");
        }
        other => panic!("{other:?}"),
    }
    assert_eq!(rejected(&recorded.step(RejectReport::Done)), 200);
    // Failures of the other server only drop the invite.
    let unspoken = leave_template(template(), false);
    let malformed = leave_template(json("{}"), true);
    for report in [RejectReport::Failed, unspoken, malformed] {
        let dropping = rejecting().step(report);
        assert_eq!(dropping.phase, RejectPhase::Drop);
        assert_eq!(rejected(&dropping.step(RejectReport::Done)), 200);
    }
    let refused = rejecting()
        .step(leave_template(template(), true))
        .step(RejectReport::Failed);
    assert_eq!(refused.phase, RejectPhase::Drop);
    // Only our own store can fail it.
    assert_eq!(rejected(&refused.step(RejectReport::Fault("io".to_owned()))), 500);
}

fn invited(event: Event) -> Result<(Event, String), FedError> {
    accept_invite(ReceivedInvite::Event(event), "!r:us.example", "$i", "us.example")
}

fn invite_event() -> Event {
    event("$i", "m.room.member", "@b:peer.example", Some("@me:us.example"), r#"{"membership":"invite"}"#)
}

#[test]
fn invites_are_checked() {
    let (kept, user) = invited(invite_event()).unwrap();
    assert_eq!(user, "@me:us.example");
    assert_eq!(dispose(Ok(false), &kept), Ok(Disposition::Keep));
    assert_eq!(
        dispose(Ok(true), &kept),
        Ok(Disposition::Stage { origin: "peer.example".to_owned() })
    );
    assert_eq!(dispose(Err("io".to_owned()), &kept), Err(FedError::Storage("io".to_owned())));
    let bad = |e| Err(FedError::BadRequest(e));
    let with = |change: fn(&mut Event)| {
        let mut event = invite_event();
        change(&mut event);
        invited(event)
    };
    assert_eq!(with(|e| e.event_id = "$x".to_owned()), bad("event_id in path does not match the event"));
    assert_eq!(with(|e| e.room_id = "!x:x".to_owned()), bad("room_id in path does not match the event"));
    assert_eq!(with(|e| e.event_type = "t".to_owned()), bad("event is not an m.room.member event"));
    assert_eq!(with(|e| e.content = Json::empty_object()), bad("membership is not invite"));
    assert_eq!(with(|e| e.state_key = None), bad("invite is missing a state_key"));
    assert_eq!(with(|e| e.state_key = Some("me".to_owned())), bad("state_key is not a valid user id"));
    assert_eq!(
        with(|e| e.state_key = Some("@me:other".to_owned())),
        bad("invited user is not local to this server")
    );
    let received = |r, room| accept_invite(r, room, "$i", "us.example");
    assert_eq!(received(ReceivedInvite::NotJson, "nope"), bad("body is not valid JSON"));
    assert_eq!(received(ReceivedInvite::Malformed, "nope"), bad("invalid room_id"));
    assert_eq!(received(ReceivedInvite::Malformed, "!r:us.example"), bad("malformed invite event"));
}

fn inviting() -> OutboundInvite {
    OutboundInvite::begin(
        "!r:us.example".to_owned(),
        "@me:us.example".to_owned(),
        "@b:peer.example:8448".to_owned(),
        Some("hi".to_owned()),
    )
}

fn shown() -> InviteReport {
    InviteReport::State {
        event: json(r#"{"type":"m.room.member","unsigned":{"age":1}}"#),
        state: vec![
            entry("m.room.name", "", "@a:x"),
            entry("m.room.member", "@me:us.example", "@me:us.example"),
            entry("m.room.member", "@b:x", "@b:x"),
        ],
    }
}

fn sent_invite() -> OutboundInvite {
    inviting().step(InviteReport::Built(invite_event())).step(shown())
}

#[test]
fn an_invite_is_stored_only_when_taken() {
    let sent = sent_invite;
    let taken = || sent().step(InviteReport::Returned(Some(invite_event())));
    assert_eq!(
        taken().action(),
        InviteAction::Apply { room_id: &"!r:us.example".to_owned(), event: &invite_event() }
    );
    let answer = |invite: OutboundInvite, report| match invite.step(report).phase {
        InvitePhase::Answered { response } => response,
        other => panic!("{other:?}"),
    };
    assert_eq!(answer(taken(), InviteReport::Applied(Ok(()))).status, 200);
    let mut other = invite_event();
    other.event_id = "$other".to_owned();
    let odd = "invitee server returned an unexpected event";
    failed(&answer(sent(), InviteReport::Returned(Some(other))), 502, odd);
    failed(&answer(sent(), InviteReport::Returned(None)), 502, odd);
    failed(&answer(sent(), InviteReport::Refused(403)), 403, "invitee server rejected the invite");
    failed(&answer(sent(), InviteReport::Refused(404)), 502, "invitee server rejected the invite");
    failed(&answer(sent(), InviteReport::Unreachable), 502, "could not reach the invitee's server");
    let build = |e| answer(inviting(), InviteReport::NotBuilt(e));
    failed(&build(RoomActorError::UnknownRoom), 404, "Not a known room");
    failed(&build(RoomActorError::Build("x".to_owned())), 400, "building event: x");
    let apply = |e| answer(taken(), InviteReport::Applied(Err(e)));
    failed(&apply(RoomActorError::Rejected), 403, "you do not have permission to invite this user");
    failed(&apply(RoomActorError::UnknownRoom), 404, "Not a known room");
    failed(&apply(RoomActorError::NotApplied), 500, "apply produced no event");
    // A report that answers nothing that was asked changes nothing.
    assert_eq!(inviting().step(InviteReport::Unreachable), inviting());
}

#[test]
fn an_invite_goes_to_the_server_of_the_one_invited() {
    match inviting().action() {
        InviteAction::Build { room_id, draft } => {
            assert_eq!(room_id, "!r:us.example");
            assert_eq!(draft.sender, "@me:us.example");
            assert_eq!(draft.event_type, "m.room.member");
            assert_eq!(draft.state_key.as_deref(), Some("@b:peer.example:8448"));
            same(&draft.content, r#"{"membership":"invite","reason":"hi"}"#);
        }
        other => panic!("{other:?}"),
    }
    let built = inviting().step(InviteReport::Built(invite_event()));
    assert_eq!(
        built.action(),
        InviteAction::ReadState { room_id: &"!r:us.example".to_owned(), candidate: &invite_event() }
    );
    match sent_invite().action() {
        InviteAction::Federate { server, room_id, event_id, body } => {
            assert_eq!(server, "peer.example:8448");
            assert_eq!(room_id, "!r:us.example");
            assert_eq!(*event_id, invite_event().event_id);
            let state = r#"[
                {"type":"m.room.name","state_key":"","sender":"@a:x","content":{"c":1}},
                {"type":"m.room.member","state_key":"@me:us.example","sender":"@me:us.example",
                    "content":{"c":1}}]"#;
            let event = format!(
                r#"{{"type":"m.room.member","unsigned":{{"age":1,"invite_room_state":{state}}}}}"#
            );
            same(
                body,
                &format!(
                    r#"{{"event":{event},"room_version":"{ROOM_VERSION_ID}",
                        "invite_room_state":{state}}}"#
                ),
            );
        }
        other => panic!("{other:?}"),
    }
    // Whoever gets an invitation reads it.
    let body = invitation_to_json(json(r#"{"a":1}"#), &vec![], "@me:us.example");
    let request = read_invite_request(&body).unwrap();
    same(&request.event, r#"{"a":1,"unsigned":{"invite_room_state":[]}}"#);
}

fn entry(ty: &str, key: &str, sender: &str) -> StateEntry {
    StateEntry {
        event_type: ty.to_owned(),
        state_key: key.to_owned(),
        event: event("$e", ty, sender, Some(key), r#"{"c":1}"#),
    }
}

#[test]
fn invites_show_some_state() {
    let state = vec![
        entry("m.room.name", "", "@a:x"),
        entry("m.room.power_levels", "", "@a:x"),
        entry("m.room.member", "@a:x", "@a:x"),
        entry("m.room.member", "@b:x", "@b:x"),
    ];
    let shown = build_invite_room_state(&state, "@a:x");
    assert_eq!(shown.len(), 2);
    same(
        &shown[0],
        r#"{"type":"m.room.name","state_key":"","sender":"@a:x","content":{"c":1}}"#,
    );
    assert_eq!(shown[1].str_at("state_key").map(|s| s.as_str()), Some("@a:x"));
    let with = with_invite_room_state(json(r#"{"a":1,"unsigned":{"age":2}}"#), vec![json("1")]);
    same(&with, r#"{"a":1,"unsigned":{"age":2,"invite_room_state":[1]}}"#);
    let with = with_invite_room_state(json(r#"{"a":1}"#), vec![]);
    same(&with, r#"{"a":1,"unsigned":{"invite_room_state":[]}}"#);
    same(&with_invite_room_state(json("[]"), vec![]), "[]");
    same(&invite_content(&None), r#"{"membership":"invite"}"#);
    same(&invite_content(&Some("hi".to_owned())), r#"{"membership":"invite","reason":"hi"}"#);
}

#[test]
fn versions_offered() {
    assert!(ver_includes_ours(Some("ver=1&ver=org.matrix.msc4242.12")));
    assert!(!ver_includes_ours(Some("ver=1")));
    assert!(!ver_includes_ours(None));
    assert!(ver_includes(Some("x=y&ver=12"), "12"));
    assert!(!ver_includes(Some("version=12"), "12"));
}

fn rules(rule: &str) -> Result<Option<Event>, String> {
    let content = format!(r#"{{"join_rule":"{rule}"}}"#);
    Ok(Some(event("$r", "m.room.join_rules", "@a:x", Some(""), &content)))
}

#[test]
fn who_may_join() {
    let as_member = |m: &str| Ok(Some(member("$m", "@z:peer.example", m)));
    assert_eq!(check_can_join(Ok(None), rules("public")), Ok(()));
    assert_eq!(check_can_join(as_member("leave"), rules("public")), Ok(()));
    assert_eq!(check_can_join(as_member("invite"), rules("invite")), Ok(()));
    assert_eq!(check_can_join(as_member("join"), rules("invite")), Ok(()));
    let no = |e| Err(FedError::Forbidden(e));
    assert_eq!(check_can_join(Ok(None), rules("invite")), no("you are not invited to this room"));
    assert_eq!(check_can_join(Ok(None), Ok(None)), no("you are not invited to this room"));
    assert_eq!(check_can_join(as_member("ban"), rules("public")), no("user is banned from the room"));
    assert_eq!(check_can_join(Ok(None), rules("knock")), no("this room's join rule is not supported"));
    assert_eq!(
        check_can_join(Ok(None), Err("io".to_owned())),
        Err(FedError::Storage("io".to_owned()))
    );
}

#[test]
fn join_templates() {
    let ours = Some("ver=org.matrix.msc4242.12");
    let known = || Ok(Some("12".to_owned()));
    let draft = plan_make_join("@z:peer.example", ours, known(), Ok(None), rules("public")).unwrap();
    assert_eq!(draft.event_type, "m.room.member");
    assert_eq!(draft.sender, "@z:peer.example");
    assert_eq!(draft.state_key.as_deref(), Some("@z:peer.example"));
    same(&draft.content, r#"{"membership":"join"}"#);
    let plan = |query, version| plan_make_join("@z:peer.example", query, version, Ok(None), rules("public"));
    assert_eq!(plan(ours, Ok(None)), Err(FedError::RoomNotFound));
    assert_eq!(plan(ours, Err("io".to_owned())), Err(FedError::Storage("io".to_owned())));
    let refusal = plan(Some("ver=1"), known()).unwrap_err();
    assert_eq!(refusal, FedError::IncompatibleRoomVersion(ROOM_VERSION_ID.to_owned()));
    let response = refusal.into_response();
    assert_eq!(response.status, 400);
    same(
        &response.body,
        r#"{"errcode":"M_INCOMPATIBLE_ROOM_VERSION","error":"incompatible room version",
            "room_version":"org.matrix.msc4242.12"}"#,
    );
    assert_eq!(check_template_ids("!r:x", "@z:x"), Ok(()));
    assert_eq!(check_template_ids("r", "@z:x"), Err(FedError::BadRequest("invalid room_id")));
    assert_eq!(check_template_ids("!r:x", "z"), Err(FedError::BadRequest("invalid user_id")));
    let answer = answer_template(Ok(member("$t", "@z:x", "join")), "12").unwrap();
    assert_eq!((answer.event.as_str(), answer.room_version.as_str()), ("raw $t", "12"));
    assert_eq!(answer_template(Err(RoomActorError::UnknownRoom), "12"), Err(FedError::RoomNotFound));
    assert_eq!(
        answer_template(Err(RoomActorError::Rejected), "12"),
        Err(FedError::Internal("could not build membership template"))
    );
}

#[test]
fn leave_templates() {
    let plan = |user, header, version| plan_make_leave(user, header, "us.example", Some("ver=12"), version);
    let known = || Ok(Some("12".to_owned()));
    let (draft, version) = plan("@z:peer.example", Some(HEADER), known()).unwrap();
    assert_eq!(version, "12");
    assert_eq!(draft.sender, "@z:peer.example");
    assert_eq!(draft.event_type, "m.room.member");
    assert_eq!(draft.state_key.as_deref(), Some("@z:peer.example"));
    same(&draft.content, r#"{"membership":"leave"}"#);
    assert!(matches!(plan("@z:peer.example", None, known()), Err(FedError::Unauthorized(_))));
    assert_eq!(
        plan("@z:other.example", Some(HEADER), known()),
        Err(FedError::Forbidden("origin server does not own the leaving user"))
    );
    assert_eq!(plan("@z:peer.example", Some(HEADER), Ok(None)), Err(FedError::RoomNotFound));
    assert_eq!(
        plan("@z:peer.example", Some(HEADER), Ok(Some("9".to_owned()))),
        Err(FedError::IncompatibleRoomVersion("9".to_owned()))
    );
}

#[test]
fn membership_events_are_accepted_from_their_own_server() {
    let accept = |event, handshake| {
        accept_membership(Received::Event(event), handshake, Some(HEADER), "us.example")
    };
    let zara = "@z:peer.example";
    assert!(accept(member("$j", zara, "join"), Handshake::Join).is_ok());
    assert!(accept(member("$l", zara, "leave"), Handshake::Leave).is_ok());
    let bad = |e| Err(FedError::BadRequest(e));
    assert_eq!(accept(member("$j", zara, "leave"), Handshake::Join), bad("membership is not join"));
    assert_eq!(accept(member("$j", zara, "join"), Handshake::Leave), bad("membership is not leave"));
    let mut other = member("$j", zara, "join");
    other.state_key = Some("@y:peer.example".to_owned());
    assert_eq!(accept(other, Handshake::Join), bad("state_key must equal sender"));
    let message = event("$m", "m.room.message", zara, None, "{}");
    assert_eq!(accept(message, Handshake::Join), bad("event is not an m.room.member event"));
    assert_eq!(
        accept(member("$j", "@z:other.example", "join"), Handshake::Join),
        Err(FedError::Forbidden("origin server does not own the event sender"))
    );
    let received = |r| accept_membership(r, Handshake::Join, Some(HEADER), "us.example");
    assert_eq!(received(Received::NotJson), bad("body is not valid JSON"));
    assert_eq!(received(Received::Malformed), bad("malformed join event"));
    let unread = |r| accept_membership(r, Handshake::Leave, Some(HEADER), "us.example");
    assert_eq!(unread(Received::Malformed), bad("malformed leave event"));
    // A join to a room that is not known here is not looked at further.
    let joined = |body| accept_join(body, Some(HEADER), "us.example");
    assert_eq!(joined(JoinBody::UnknownRoom), Err(FedError::RoomNotFound));
    assert_eq!(joined(JoinBody::Read(Received::Malformed)), bad("malformed join event"));
    let read = JoinBody::Read(Received::Event(member("$j", zara, "join")));
    assert_eq!(joined(read).map(|e| e.event_id), Ok("$j".to_owned()));
    let anonymous =
        accept_membership(Received::Event(member("$j", zara, "join")), Handshake::Join, None, "us.example");
    assert!(matches!(anonymous, Err(FedError::Unauthorized(_))));
}

#[test]
fn a_join_is_answered_with_the_room() {
    let head = vec![member("$h", "@a:x", "join")];
    let ancestry = vec![event("$c", "m.room.create", "@a:x", Some(""), "{}")];
    let timeline = vec![event("$t", "m.room.message", "@a:x", None, "{}")];
    let answer = answer_join(Ok(()), "raw $j", &head, &ancestry, &timeline).unwrap();
    assert_eq!(answer.state_dag, texts(&["raw $h", "raw $c"]));
    assert_eq!(answer.timeline, texts(&["raw $t"]));
    assert_eq!(answer.event, "raw $j");
    let refused = |e| answer_join(Err(e), "raw $j", &head, &ancestry, &timeline);
    assert_eq!(
        refused(RoomActorError::Rejected),
        Err(FedError::Forbidden("event rejected by auth rules"))
    );
    assert_eq!(refused(RoomActorError::UnknownRoom), Err(FedError::RoomNotFound));
    assert_eq!(
        refused(RoomActorError::ActorGone),
        Err(FedError::Internal("could not apply the event"))
    );
    same(&answer_leave(Ok(())).unwrap(), "{}");
    assert_eq!(
        answer_leave(Err(RoomActorError::Storage("io".to_owned()))),
        Err(FedError::Storage("io".to_owned()))
    );
}

fn round(limit: u32) -> Round {
    Round::begin(
        Some(texts(&["$1", "$2", "$3", "$4", "$5", "$6"])),
        Some(texts(&["us.example", "a.example", "b.example"])),
        "us.example",
        "!r:us.example".to_owned(),
        limit,
    )
    .unwrap()
}

#[test]
fn backfill_needs_ends_and_peers() {
    let begin = |ends, servers| Round::begin(ends, servers, "us.example", "!r:x".to_owned(), 5);
    assert_eq!(begin(Some(vec![]), Some(texts(&["a.example"]))), None);
    assert_eq!(begin(Some(texts(&["$1"])), Some(texts(&["us.example"]))), None);
    assert_eq!(begin(None, Some(texts(&["a.example"]))), None);
    assert_eq!(begin(Some(texts(&["$1"])), None), None);
    let round = round(5);
    assert_eq!(round.seeds, texts(&["$1", "$2", "$3", "$4", "$5"]));
    assert_eq!(round.dests, texts(&["a.example", "b.example"]));
    assert_eq!(other_servers(&texts(&["a", "b", "a"]), "a"), texts(&["b"]));
}

#[test]
fn backfill_stores_what_is_new_up_to_the_limit() {
    let mut r = round(2).step(RoundReport::PeerFailed);
    assert_eq!((r.asked, &r.phase), (1, &RoundPhase::Ask));
    r = r.step(RoundReport::Answered(texts(&["p1", "p2", "p3"])));
    assert_eq!((r.asked, &r.phase), (2, &RoundPhase::Parse));
    r = r.step(RoundReport::Parsed(member("$p1", "@a:x", "join")));
    r = r.step(RoundReport::Held(false));
    r = r.step(RoundReport::Stored);
    assert_eq!(r.persisted, 1);
    r = r.step(RoundReport::Parsed(member("$p2", "@a:x", "join")));
    r = r.step(RoundReport::Held(true));
    // The third is over the limit.
    assert_eq!((r.persisted, &r.phase), (1, &RoundPhase::Over));
}

#[test]
fn backfill_skips_what_is_foreign_or_unreadable() {
    let mut foreign = member("$f", "@a:x", "join");
    foreign.room_id = "!other:x".to_owned();
    let r = round(5).step(RoundReport::Answered(texts(&["p1", "p2", "p3", "p4"])));
    let r = r.step(RoundReport::Parsed(foreign));
    assert_eq!((r.done, &r.phase), (1, &RoundPhase::Parse));
    let r = r.step(RoundReport::Unparseable);
    let r = r.step(RoundReport::Parsed(member("$1", "@a:x", "join"))).step(RoundReport::Fault);
    assert_eq!((r.done, &r.phase), (3, &RoundPhase::Parse));
    let r = r.step(RoundReport::Parsed(member("$2", "@a:x", "join")));
    let r = r.step(RoundReport::Held(false)).step(RoundReport::Fault);
    assert_eq!((r.persisted, &r.phase), (0, &RoundPhase::Over));
    // All peers failed.
    let r = round(5).step(RoundReport::PeerFailed).step(RoundReport::PeerFailed);
    assert_eq!(r.phase, RoundPhase::Over);
    // The first answer ends the asking, though it is empty.
    assert_eq!(round(5).step(RoundReport::Answered(vec![])).phase, RoundPhase::Over);
}

#[test]
fn backfill_asks_in_order_and_keeps_what_it_was_given() {
    let ask = |server: &str| {
        (server.to_owned(), "!r:us.example".to_owned(), texts(&["$1", "$2", "$3", "$4", "$5"]))
    };
    let asked = |r: &Round| match r.action() {
        RoundAction::Ask { server, room_id, seeds, limit } => {
            assert_eq!(limit, 7);
            (server.clone(), room_id.clone(), seeds.clone())
        }
        other => panic!("{other:?}"),
    };
    let r = round(7);
    assert_eq!(asked(&r), ask("a.example"));
    let r = r.step(RoundReport::PeerFailed);
    assert_eq!(asked(&r), ask("b.example"));
    let r = r.step(RoundReport::Answered(texts(&["p1", "p2"])));
    assert_eq!(r.action(), RoundAction::Parse(&"p1".to_owned()));
    let event = member("$p1", "@a:x", "join");
    let r = r.step(RoundReport::Parsed(event.copy()));
    assert_eq!(r.action(), RoundAction::LookUp(&event));
    let r = r.step(RoundReport::Held(false));
    assert_eq!(r.action(), RoundAction::Persist(&event));
    let r = r.step(RoundReport::Stored);
    assert_eq!(r.action(), RoundAction::Parse(&"p2".to_owned()));
    assert_eq!(r.step(RoundReport::Unparseable).action(), RoundAction::Stop(1));
}
