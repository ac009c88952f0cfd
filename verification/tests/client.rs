use neutrino_http::client::{
    body_excerpt, delivery, invite_request_to_json, send_outcome, send_url, transport_error,
    Endpoint, FederationClientError, TransportError, TxnIdGen,
};
use neutrino_http::event::ForwardExtremities;
use neutrino_http::get_missing_events::{read_request_body, request_to_json};
use neutrino_http::invite::read_invite_request;
use neutrino_http::json::Json;
use neutrino_http::send::Answer;
use neutrino_http::sender::Outcome;
use neutrino_http::transaction::{read_answer, read_transaction, transaction_to_json};

fn texts(items: &[&str]) -> Vec<String> {
    items.iter().map(|s| s.to_string()).collect()
}

fn from_value(value: &serde_json::Value) -> Json {
    match value {
        serde_json::Value::Null => Json::Null,
        serde_json::Value::Bool(b) => Json::Bool(*b),
        serde_json::Value::Number(n) => Json::Number(n.to_string()),
        serde_json::Value::String(s) => Json::Str(s.clone()),
        serde_json::Value::Array(items) => Json::Array(items.iter().map(from_value).collect()),
        serde_json::Value::Object(map) => {
            Json::Object(map.iter().map(|(k, v)| (k.clone(), from_value(v))).collect())
        }
    }
}

fn json(text: &str) -> Json {
    from_value(&serde_json::from_str(text).unwrap())
}

#[test]
fn txn_id_gen_is_monotonic_and_prefixed() {
    let mut g = TxnIdGen::new(42);
    assert_eq!(g.next_id(), "42-0");
    assert_eq!(g.next_id(), "42-1");
    assert_eq!(g.next_id(), "42-2");
}

#[test]
fn txn_ids_differ_between_runs() {
    let mut all: Vec<String> = Vec::new();
    for start in [1, 11] {
        let mut g = TxnIdGen::new(start);
        for _ in 0..12 {
            all.push(g.next_id());
        }
    }
    let n = all.len();
    all.sort();
    all.dedup();
    assert_eq!(all.len(), n);
}

/// The client's request bodies must satisfy the inbound readers.
#[test]
fn outbound_bodies_round_trip_through_inbound_parsers() {
    let pdu = json(r#"{"type":"m.room.message"}"#);
    let txn = transaction_to_json("local.test", 12345, vec![pdu.copy()], &vec![]);
    let read = read_transaction(&txn).expect("inbound /send parses the client's body");
    assert_eq!(read.origin.as_deref(), Some("local.test"));
    assert_eq!(read.pdus, vec![pdu]);
    assert!(read.forward_extremities.is_empty());

    let latest = texts(&["$l:example.org"]);
    let earliest = texts(&["$e:example.org"]);
    let req = request_to_json(&earliest, &latest, 7, true, true);
    let read = read_request_body(&req).expect("inbound /get_missing_events parses the client's body");
    assert_eq!(read.latest_events, latest);
    assert_eq!(read.earliest_events, earliest);
    assert_eq!(read.limit, Some(7));
    assert!(read.state_dag.0 && read.include_latest_events);
}

/// The advertised heads must round-trip across the two halves of `/send`.
#[test]
fn forward_extremities_round_trip_through_both_send_halves() {
    let room = "!r:example.org".to_owned();
    let heads = ForwardExtremities {
        timeline: texts(&["$t:example.org"]),
        state: texts(&["$s:example.org"]),
    };
    let fes = vec![(room.clone(), heads.copy())];

    // Request half: outbound body parses on the inbound handler.
    let pdu = json(r#"{"type":"m.room.message"}"#);
    let txn = transaction_to_json("local.test", 1, vec![pdu], &fes);
    assert_eq!(
        txn.get("forward_extremities").unwrap().get(&room).unwrap().get("state").unwrap(),
        &json(r#"["$s:example.org"]"#)
    );
    let read = read_transaction(&txn).expect("inbound /send parses the client's forward_extremities");
    assert_eq!(read.forward_extremities, fes);

    // Response half: an inbound-shaped response parses back into the client.
    let resp = json(
        r#"{"pdus":{},"forward_extremities":{"!r:example.org":
            {"timeline":["$t:example.org"],"state":["$s:example.org"]}}}"#,
    );
    let read = read_answer(&resp).expect("client parses the inbound /send response");
    assert_eq!(read[0].1.state[0], "$s:example.org");

    // A legacy response (no field) decodes to an empty advertisement.
    let legacy = read_answer(&json(r#"{"pdus":{}}"#)).expect("legacy body parses");
    assert!(legacy.is_empty());

    // What this server answers is read back too.
    let answer = Answer {
        pdus: vec![("$x".to_owned(), None)],
        forward_extremities: vec![(room, heads)],
    };
    assert_eq!(read_answer(&answer.to_json()), Some(answer.forward_extremities));
}

#[test]
fn transaction_keeps_order_and_leaves_out_empty_heads() {
    let pdus = vec![json(r#"{"n":1}"#), json(r#"{"n":2}"#)];
    let body = transaction_to_json("local.test", 5, pdus, &vec![]);
    assert_eq!(
        body,
        Json::single("origin", Json::string("local.test"))
            .and("origin_server_ts", Json::number("5"))
            .and("pdus", json(r#"[{"n":1},{"n":2}]"#))
            .and("edus", Json::array(vec![]))
    );
}

#[test]
fn transactions_of_the_wrong_shape_are_refused() {
    assert!(read_transaction(&json("{}")).is_some());
    assert!(read_transaction(&json(r#"{"origin":null}"#)).is_some());
    // The fields may also come in their order, as far as there are any.
    let all = r#"["a.example",[{"n":1}],[],{"!r:x":{"timeline":["$x"],"state":[]}}]"#;
    let read = read_transaction(&json(all)).unwrap();
    assert_eq!((read.origin.as_deref(), read.pdus.len()), (Some("a.example"), 1));
    assert_eq!(read.forward_extremities[0].0, "!r:x");
    let read = read_transaction(&json("[]")).unwrap();
    assert!(read.origin.is_none() && read.pdus.is_empty() && read.forward_extremities.is_empty());
    assert!(read_transaction(&json("[null,[]]")).is_some());
    assert!(read_transaction(&json("[null,null]")).is_none());
    assert!(read_transaction(&json("[null,[],[],{},1]")).is_none());
    assert!(read_transaction(&json("null")).is_none());
    assert_eq!(read_answer(&json("[]")), Some(vec![]));
    assert_eq!(read_answer(&json("[{}]")), Some(vec![]));
    assert_eq!(read_answer(&json("[{},1]")), None);
    assert_eq!(read_answer(&json("[[]]")), None);
    assert!(read_transaction(&json(r#"{"origin":"not a name"}"#)).is_none());
    assert!(read_transaction(&json(r#"{"origin":5}"#)).is_none());
    assert!(read_transaction(&json(r#"{"pdus":{}}"#)).is_none());
    assert!(read_transaction(&json(r#"{"edus":null}"#)).is_none());
    assert!(read_transaction(&json(r#"{"forward_extremities":[]}"#)).is_none());
    assert!(read_transaction(&json(r#"{"forward_extremities":{"r":{"timeline":[],"state":[]}}}"#)).is_none());
    assert!(read_transaction(&json(r#"{"forward_extremities":{"!r:x":{"timeline":["x"],"state":[]}}}"#)).is_none());
    assert!(read_transaction(&json(r#"{"forward_extremities":{"!r:x":{"timeline":["$x"],"state":[]}}}"#)).is_some());
}

#[test]
fn addresses_are_escaped() {
    assert_eq!(
        send_url("127.0.0.1:8008", "42-0"),
        "http://127.0.0.1:8008/_matrix/federation/v1/send/42-0"
    );
    let url = Endpoint::GetMissingEvents { room_id: "!a/b?c#d:x" }.url("peer.example:8448");
    assert_eq!(
        url.unwrap(),
        "http://peer.example:8448/_matrix/federation/v1/get_missing_events/!a%2Fb%3Fc%23d:x"
    );
    let url = Endpoint::MakeJoin { room_id: "!r:x", user_id: "@a:x", ver: "12 b" }.url("x");
    assert_eq!(
        url.unwrap(),
        "http://x/_matrix/federation/v1/make_join/!r:x/@a:x?ver=12+b"
    );
    let url = Endpoint::SendJoin { room_id: "!r:x", event_id: "$e" }.url("x");
    assert_eq!(url.unwrap(), "http://x/_matrix/federation/v2/send_join/!r:x/$e");
    let url = Endpoint::Invite { room_id: "!r:x", event_id: "$e" }.url("x");
    assert_eq!(url.unwrap(), "http://x/_matrix/federation/v2/invite/!r:x/$e");
    let url = Endpoint::MakeLeave { room_id: "!r:x", user_id: "@a:x", ver: "12" }.url("x");
    assert_eq!(
        url.unwrap(),
        "http://x/_matrix/federation/v1/make_leave/!r:x/@a:x?ver=12"
    );
    let url = Endpoint::SendLeave { room_id: "!r:x", event_id: "$e" }.url("x");
    assert_eq!(url.unwrap(), "http://x/_matrix/federation/v2/send_leave/!r:x/$e");
    let seeds = vec!["$a b".to_owned(), "$c&d".to_owned()];
    let url = Endpoint::Backfill { room_id: "!r/s:x", seeds: &seeds, limit: 50 }.url("x");
    assert_eq!(
        url.unwrap(),
        "http://x/_matrix/federation/v1/backfill/!r%2Fs:x?v=%24a+b&v=%24c%26d&limit=50"
    );
    // What is no address is refused.
    let url = Endpoint::GetMissingEvents { room_id: "!r:x" }.url("not a host");
    assert_eq!(url, Err(FederationClientError::InvalidUrl));
}

#[test]
fn failures_are_told_apart() {
    assert_eq!(transport_error(FederationClientError::Status(404)), TransportError::Status(404));
    assert_eq!(
        transport_error(FederationClientError::Transport("refused".to_owned())),
        TransportError::Transient("federation transport error: refused".to_owned())
    );
    assert_eq!(
        transport_error(FederationClientError::InvalidUrl),
        TransportError::Transient("could not build federation URL".to_owned())
    );
    assert_eq!(FederationClientError::Status(502).to_text(), "peer returned HTTP 502");
    assert_eq!(send_outcome(Err(TransportError::Status(500))), Outcome::Status(500));
    assert_eq!(send_outcome(Err(TransportError::Transient("x".to_owned()))), Outcome::Unreachable);
    assert_eq!(send_outcome(Ok(vec![])), Outcome::Delivered(vec![]));
}

#[test]
fn a_2xx_is_a_delivery_whatever_its_body() {
    assert_eq!(delivery(200, None), Ok(vec![]));
    assert_eq!(delivery(299, None), Ok(vec![]));
    assert_eq!(delivery(199, None), Err(FederationClientError::Status(199)));
    assert_eq!(delivery(300, Some(vec![])), Err(FederationClientError::Status(300)));
    assert_eq!(delivery(500, None), Err(FederationClientError::Status(500)));
}

#[test]
fn long_bodies_are_cut() {
    assert_eq!(body_excerpt("boom"), "boom");
    let long: String = (0..2000).map(|_| '\u{e9}').collect();
    assert_eq!(body_excerpt(&long).chars().count(), 1024);
}

#[test]
fn invitation_body() {
    let body = invite_request_to_json(json(r#"{"a":1}"#), "12", vec![json(r#"{"type":"t"}"#)]);
    assert_eq!(body.get("event"), Some(&json(r#"{"a":1}"#)));
    assert_eq!(body.str_at("room_version").map(|s| s.as_str()), Some("12"));
    assert_eq!(body.get("invite_room_state"), Some(&json(r#"[{"type":"t"}]"#)));
    // The server that it is sent to reads it as it was made.
    let request = read_invite_request(&body).unwrap();
    assert_eq!(request.event, json(r#"{"a":1}"#));
    assert_eq!(request.room_version, "12");
    assert_eq!(request.invite_room_state, vec![json(r#"{"type":"t"}"#)]);
    let bare = read_invite_request(&json(r#"{"event":{},"room_version":"12"}"#)).unwrap();
    assert!(bare.invite_room_state.is_empty());
    assert_eq!(read_invite_request(&json(r#"{"type":"m.room.member"}"#)), None);
    assert_eq!(read_invite_request(&json(r#"{"event":{}}"#)), None);
    assert_eq!(
        read_invite_request(&json(r#"{"event":{},"room_version":"12","invite_room_state":1}"#)),
        None
    );
}
