use neutrino_http::backoff::{BACKOFF_BASE, BACKOFF_CAP};
use neutrino_http::event::{Event, ForwardExtremities};
use neutrino_http::json::Json;
use neutrino_http::response::FedError;
use neutrino_http::room_actor::{
    adopt, bootstrap, collect_effects, commit_local, commit_remote, commit_resident,
    event_membership, outbound_destinations, reply_of, Effect, Membership, RoomActorError, RoomRegistry, StateEntry,
};
use neutrino_http::send::{
    ended_local_member, open_transaction, read_member_shape, user_lives_on, Begun, BodyProblem, Chore, Inbound,
    MemberShape, Report, Stub, TransactionBody,
};
use neutrino_http::sender::{
    destinations_needing_a_task, send_slots, supervise_round, Action, DestinationTask, Outcome,
    Purpose,
};
use neutrino_http::textset::TextSet;

fn from_value(value: &serde_json::Value) -> Json {
    match value {
        serde_json::Value::Null => Json::Null,
        serde_json::Value::Bool(b) => Json::Bool(*b),
        serde_json::Value::Number(n) => Json::Number(n.to_string()),
        serde_json::Value::String(s) => Json::Str(s.clone()),
        serde_json::Value::Array(items) => Json::Array(items.iter().map(from_value).collect()),
        serde_json::Value::Object(map) => {
            Json::Object(map.iter().map(|(k, v)| (k.clone(), from_value(v))).collect())
        }
    }
}

fn to_value(json: &Json) -> serde_json::Value {
    match json {
        Json::Null => serde_json::Value::Null,
        Json::Bool(b) => serde_json::Value::Bool(*b),
        Json::Number(n) => serde_json::from_str(n).unwrap(),
        Json::Str(s) => serde_json::Value::String(s.clone()),
        Json::Array(items) => serde_json::Value::Array(items.iter().map(to_value).collect()),
        Json::Object(members) => {
            let pairs = members.iter().map(|(k, v)| (k.clone(), to_value(v)));
            serde_json::Value::Object(pairs.collect())
        }
    }
}

fn json(text: &str) -> Json {
    from_value(&serde_json::from_str(text).unwrap())
}

fn same(json: &Json, text: &str) {
    let wanted: serde_json::Value = serde_json::from_str(text).unwrap();
    assert_eq!(to_value(json), wanted);
}

fn event(id: &str, ty: &str, sender: &str, state_key: Option<&str>, content: &str) -> Event {
    Event {
        event_id: id.to_owned(),
        room_id: "!r:us.example".to_owned(),
        sender: sender.to_owned(),
        event_type: ty.to_owned(),
        state_key: state_key.map(|k| k.to_owned()),
        content: json(content),
        prev_events: vec![],
        prev_state_events: vec![],
        rejected: false,
        soft_failed: false,
        raw: format!("raw {id}"),
    }
}

fn member(id: &str, user: &str, membership: &str) -> Event {
    let content = format!(r#"{{"membership":"{membership}"}}"#);
    event(id, "m.room.member", user, Some(user), &content)
}

const HEADER: &str = r#"X-Matrix origin="peer.example",destination="us.example""#;

fn texts(items: &[&str]) -> Vec<String> {
    items.iter().map(|s| s.to_string()).collect()
}

fn heads(timeline: &[&str], state: &[&str]) -> ForwardExtremities {
    ForwardExtremities { timeline: texts(timeline), state: texts(state) }
}

fn message(id: &str) -> Event {
    event(id, "m.room.message", "@a:peer.example", None, "{}")
}

fn body(pdus: &[&str]) -> TransactionBody {
    TransactionBody { origin: None, pdus: texts(pdus), forward_extremities: vec![] }
}

#[test]
fn transactions_are_opened() {
    let open = |body, header| open_transaction(body, header, "us.example");
    let (origin, kept) = open(Ok(body(&["p"])), Some(HEADER)).unwrap();
    assert_eq!((origin.as_str(), kept), ("peer.example", body(&["p"])));
    assert_eq!(
        open(Err(BodyProblem::NotJson), None),
        Err(FedError::BadRequest("body is not valid JSON"))
    );
    assert_eq!(
        open(Err(BodyProblem::WrongShape), None),
        Err(FedError::BadRequest("body shape does not match the spec"))
    );
    let crowd: Vec<&str> = (0..51).map(|_| "p").collect();
    assert_eq!(
        open(Ok(body(&crowd)), Some(HEADER)),
        Err(FedError::BadRequest("transaction exceeds 50 PDUs"))
    );
    assert!(open(Ok(body(&crowd[..50])), Some(HEADER)).is_ok());
    assert!(matches!(open(Ok(body(&[])), None), Err(FedError::Unauthorized(_))));
    let claims = |origin: &str| TransactionBody { origin: Some(origin.to_owned()), ..body(&[]) };
    assert!(open(Ok(claims("peer.example")), Some(HEADER)).is_ok());
    assert_eq!(
        open(Ok(claims("other.example")), Some(HEADER)),
        Err(FedError::Unauthorized("X-Matrix origin does not match the transaction origin"))
    );
}

fn begin(pdus: &[&str], advertised: Vec<(String, ForwardExtremities)>) -> Inbound {
    let body = TransactionBody { forward_extremities: advertised, ..body(pdus) };
    match Inbound::begin(Ok(false), "peer.example".to_owned(), "us.example".to_owned(), body) {
        Begun::Process(inbound) => inbound,
        other => panic!("{other:?}"),
    }
}

fn peeked() -> Report {
    Report::Peeked { room: Some("!r:us.example".to_owned()), member: None }
}

#[test]
fn a_transaction_is_staged_recorded_and_answered() {
    let inbound = begin(&["p1"], vec![]);
    assert_eq!(inbound.chore(), Chore::Peek(&"p1".to_owned()));
    let inbound = inbound.step(peeked());
    assert_eq!(inbound.chore(), Chore::LookUp(&"p1".to_owned()));
    let inbound = inbound.step(Report::Version("12".to_owned()));
    assert!(matches!(inbound.chore(), Chore::NameEvent { .. }));
    let inbound = inbound.step(Report::Event(message("$1")));
    assert_eq!(inbound.chore(), Chore::StageEvent(&message("$1")));
    let inbound = inbound.step(Report::Done);
    assert_eq!(inbound.chore(), Chore::Record);
    let inbound = inbound.step(Report::Done);
    assert_eq!(inbound.chore(), Chore::Poke(texts(&["!r:us.example"])));
    let inbound = inbound.step(Report::Done);
    assert_eq!(inbound.chore(), Chore::ReadHeads(&texts(&["!r:us.example"])));
    // The sender holds its own event, so that head is not told again.
    let inbound = inbound.step(Report::Heads(vec![heads(&["$1", "$mine"], &[])]));
    match inbound.chore() {
        Chore::Answer(answer) => same(
            &answer.to_json(),
            r#"{"pdus":{"$1":{}},"forward_extremities":
                {"!r:us.example":{"timeline":["$mine"],"state":[]}}}"#,
        ),
        other => panic!("{other:?}"),
    }
}

#[test]
fn an_unstaged_event_keeps_the_transaction_unrecorded() {
    let inbound = begin(&["p1"], vec![])
        .step(peeked())
        .step(Report::Version("12".to_owned()))
        .step(Report::Event(message("$1")))
        .step(Report::Fault("full".to_owned()));
    // Not recorded: the sender is to send it again.
    assert!(matches!(inbound.chore(), Chore::Poke(_)));
    let inbound = inbound.step(Report::Done);
    let rooms = match inbound.chore() {
        Chore::ReadHeads(rooms) => rooms.len(),
        other => panic!("{other:?}"),
    };
    let none = (0..rooms).map(|_| heads(&[], &[])).collect();
    let inbound = inbound.step(Report::Heads(none));
    match inbound.chore() {
        Chore::Answer(answer) => same(&answer.to_json(), r#"{"pdus":{"$1":{"error":"full"}}}"#),
        other => panic!("{other:?}"),
    }
}

#[test]
fn duplicates_and_unknown_rooms() {
    let start = |seen| {
        Inbound::begin(seen, "peer.example".to_owned(), "us.example".to_owned(), body(&["p"]))
    };
    match start(Ok(true)) {
        Begun::Duplicate(answer) => same(&answer.to_json(), r#"{"pdus":{}}"#),
        other => panic!("{other:?}"),
    }
    assert_eq!(
        start(Err("io".to_owned())),
        Begun::Failed(FedError::Storage("io".to_owned()))
    );
    // A room that will never be known: the event is dropped, the transaction recorded.
    let inbound = begin(&["p1", "p2"], vec![]).step(peeked()).step(Report::NoVersion);
    // The second event of the same room is not looked up again.
    let inbound = inbound.step(peeked());
    assert_eq!(inbound.chore(), Chore::Record);
    // A room that may be known later: not recorded.
    let inbound = begin(&["p1"], vec![]).step(peeked()).step(Report::NoVersionYet);
    assert!(matches!(inbound.chore(), Chore::Poke(_)));
    // The same event twice is staged once.
    let inbound = begin(&["p1", "p1"], vec![])
        .step(peeked())
        .step(Report::Version("12".to_owned()))
        .step(Report::Event(message("$1")))
        .step(Report::Done)
        .step(peeked())
        .step(Report::Event(message("$1")));
    assert_eq!(inbound.chore(), Chore::Record);
    assert!(matches!(inbound.step(Report::Fault("io".to_owned())).chore(), Chore::Fail(_)));
    // An empty transaction is recorded at once.
    assert_eq!(begin(&[], vec![]).chore(), Chore::Record);
}

fn shape(ty: &str, user: &str, membership: &str) -> Option<MemberShape> {
    Some(MemberShape {
        event_type: ty.to_owned(),
        state_key: Some(user.to_owned()),
        membership: Some(membership.to_owned()),
    })
}

#[test]
fn member_events_are_read_at_their_surface() {
    let read = |text: &str| read_member_shape(&json(text));
    assert_eq!(
        read(r#"{"type":"m.room.member","state_key":"@b:x","content":{"membership":"leave"}}"#),
        shape("m.room.member", "@b:x", "leave")
    );
    assert_eq!(
        read(r#"{"type":"t","state_key":null,"content":{}}"#),
        Some(MemberShape { event_type: "t".to_owned(), state_key: None, membership: None })
    );
    assert_eq!(read(r#"{"type":"t"}"#), None);
    assert_eq!(read(r#"{"type":"t","content":[]}"#), None);
    assert_eq!(read(r#"{"type":"t","state_key":1,"content":{}}"#), None);
    assert_eq!(read(r#"{"type":"t","content":{"membership":1}}"#), None);
    assert_eq!(read(r#"{"content":{}}"#), None);
    // The event, and its content, may each be an array of all its fields.
    assert_eq!(
        read(r#"{"type":"m.room.member","state_key":"@b:x","content":["leave"]}"#),
        shape("m.room.member", "@b:x", "leave")
    );
    assert_eq!(
        read(r#"["m.room.member","@b:x",{"membership":"ban"}]"#),
        shape("m.room.member", "@b:x", "ban")
    );
    assert_eq!(
        read(r#"["t",null,[null]]"#),
        Some(MemberShape { event_type: "t".to_owned(), state_key: None, membership: None })
    );
    assert_eq!(read(r#"["t",null]"#), None);
    assert_eq!(read(r#"["t",null,["leave"],1]"#), None);
    assert_eq!(read(r#"["t",null,["leave","x"]]"#), None);
}

#[test]
fn a_rescinded_invite_replaces_its_stub() {
    let user = "@me:us.example";
    assert_eq!(ended_local_member(&shape("m.room.member", user, "leave"), "us.example").as_deref(), Some(user));
    assert_eq!(ended_local_member(&shape("m.room.member", user, "ban"), "us.example").as_deref(), Some(user));
    assert_eq!(ended_local_member(&shape("m.room.member", user, "join"), "us.example"), None);
    assert_eq!(ended_local_member(&shape("m.room.name", user, "leave"), "us.example"), None);
    assert_eq!(ended_local_member(&shape("m.room.member", "@b:x", "leave"), "us.example"), None);
    assert_eq!(ended_local_member(&None, "us.example"), None);
    assert!(user_lives_on(user, "us.example"));
    assert!(!user_lives_on("me", "us.example"));

    let mut leave = event("$l", "m.room.member", "@b:peer.example", Some(user), r#"{"membership":"leave"}"#);
    leave.prev_state_events = texts(&["$invite"]);
    let stub = || Stub { event_id: "$invite".to_owned(), room_version: "12".to_owned() };
    let asked = || {
        begin(&["p"], vec![]).step(Report::Peeked {
            room: Some("!r:us.example".to_owned()),
            member: shape("m.room.member", user, "leave"),
        })
    };
    let inbound = asked().step(Report::Stub(Some(stub()))).step(Report::Event(leave.copy()));
    assert!(matches!(inbound.chore(), Chore::PutUpdate { .. }));
    let inbound = inbound.step(Report::Done);
    assert_eq!(inbound.chore(), Chore::Record);
    // One that does not name the stub is dropped.
    leave.prev_state_events = vec![];
    let inbound = asked().step(Report::Stub(Some(stub()))).step(Report::Event(leave.copy()));
    assert_eq!(inbound.chore(), Chore::Record);
    // One whose sender is not of the origin goes the common way.
    leave.sender = "@b:other.example".to_owned();
    let inbound = asked().step(Report::Stub(Some(stub()))).step(Report::Event(leave));
    assert!(matches!(inbound.chore(), Chore::LookUp(_)));
    // And so does one for which there is no stub.
    assert!(matches!(asked().step(Report::Stub(None)).chore(), Chore::LookUp(_)));
}

fn sending(batch: Vec<Event>) -> DestinationTask {
    let task = DestinationTask::start();
    assert_eq!(task.action(), Action::ReadPdus(50));
    let task = task.step(Outcome::Pdus(batch)).0;
    assert_eq!(task.action(), Action::ReadHeads(&texts(&["!r:us.example"])));
    let task = task.step(Outcome::Heads(vec![heads(&["$h"], &["$s"])])).0;
    assert_eq!(task.action(), Action::Name);
    task.step(Outcome::Named("42-0".to_owned())).0
}

#[test]
fn a_batch_is_delivered_and_removed() {
    let task = sending(vec![message("$1"), message("$2")]);
    match task.action() {
        Action::Send(txn) => {
            assert_eq!(txn.txn_id, "42-0");
            assert_eq!(txn.payload.purpose, Purpose::Batch);
            assert_eq!(txn.payload.pdus, texts(&["raw $1", "raw $2"]));
            assert_eq!(txn.payload.heads, vec![("!r:us.example".to_owned(), heads(&["$h"], &["$s"]))]);
        }
        other => panic!("{other:?}"),
    }
    let peer = vec![("!r:us.example".to_owned(), heads(&["$theirs"], &[]))];
    let task = task.step(Outcome::Delivered(peer)).0;
    assert_eq!(task.action(), Action::RemovePdus(&texts(&["$1", "$2"])));
    // The heads that went along settle what was owed for their rooms.
    let task = task.step(Outcome::Done).0;
    assert_eq!(task.action(), Action::ClearOwed(&texts(&["!r:us.example"])));
    let (task, reconcile) = task.step(Outcome::Done);
    assert_eq!(reconcile, vec![("!r:us.example".to_owned(), heads(&["$theirs"], &[]))]);
    assert_eq!(task, DestinationTask::start());
}

#[test]
fn a_transient_failure_is_sent_again_unchanged() {
    let task = sending(vec![message("$1")]).step(Outcome::Status(500)).0;
    assert_eq!(task.action(), Action::Wait(BACKOFF_BASE));
    let task = task.step(Outcome::Woken { kicked: false }).0;
    assert_eq!(task.backoff, 2 * BACKOFF_BASE);
    match task.action() {
        Action::Send(txn) => assert_eq!(txn.txn_id, "42-0"),
        other => panic!("{other:?}"),
    }
    let mut task = task;
    for _ in 0..20 {
        task = task.step(Outcome::Unreachable).0.step(Outcome::Woken { kicked: false }).0;
    }
    assert_eq!(task.backoff, BACKOFF_CAP);
    // A kick starts from the floor again.
    let task = task.step(Outcome::Unreachable).0.step(Outcome::Woken { kicked: true }).0;
    assert_eq!(task.backoff, BACKOFF_BASE);
    assert!(matches!(task.action(), Action::Send(_)));
    assert_eq!(task.step(Outcome::NoSlot).0.action(), Action::Stop);
}

#[test]
fn a_rejected_batch_is_dropped_but_what_is_owed_stays() {
    let task = sending(vec![message("$1")]).step(Outcome::Status(404)).0;
    assert_eq!(task.action(), Action::RemovePdus(&texts(&["$1"])));
    let (task, reconcile) = task.step(Outcome::Done);
    assert!(reconcile.is_empty());
    assert_eq!(task.action(), Action::ReadPdus(50));
}

fn advertising() -> DestinationTask {
    let task = DestinationTask::start().step(Outcome::Pdus(vec![])).0;
    assert_eq!(task.action(), Action::ReadOwed);
    let task = task.step(Outcome::Owed(texts(&["!b:x", "!a:x"]))).0;
    assert_eq!(task.action(), Action::ReadHeads(&texts(&["!a:x", "!b:x"])));
    let task = task.step(Outcome::Heads(vec![heads(&[], &[]), heads(&["$b"], &[])])).0;
    // The room without heads is cleared before anything is sent.
    assert_eq!(task.action(), Action::ClearOwed(&texts(&["!a:x"])));
    let task = task.step(Outcome::Done).0;
    assert_eq!(task.action(), Action::Name);
    task.step(Outcome::Named("42-1".to_owned())).0
}

#[test]
fn an_owed_advertisement_is_sent_without_events() {
    let task = advertising();
    match task.action() {
        Action::Send(txn) => {
            assert_eq!(txn.payload.purpose, Purpose::Advertisement);
            assert!(txn.payload.pdus.is_empty());
            assert_eq!(txn.payload.heads, vec![("!b:x".to_owned(), heads(&["$b"], &[]))]);
        }
        other => panic!("{other:?}"),
    }
    let task = task.step(Outcome::Delivered(vec![])).0;
    assert_eq!(task.action(), Action::ClearOwed(&texts(&["!b:x"])));
    // A rejected one is dropped too.
    let task = advertising().step(Outcome::Status(400)).0;
    assert_eq!(task.action(), Action::ClearOwed(&texts(&["!b:x"])));
    // Rooms without heads are owed nothing.
    let task = DestinationTask::start()
        .step(Outcome::Pdus(vec![])).0
        .step(Outcome::Owed(texts(&["!a:x"]))).0
        .step(Outcome::Heads(vec![heads(&[], &[])])).0;
    assert_eq!(task.action(), Action::ClearOwed(&texts(&["!a:x"])));
}

#[test]
fn a_room_without_heads_does_not_hold_up_the_others() {
    let read = |owed: &[&str], all: Vec<ForwardExtremities>| {
        DestinationTask::start()
            .step(Outcome::Pdus(vec![])).0
            .step(Outcome::Owed(texts(owed))).0
            .step(Outcome::Heads(all)).0
    };
    // A store that fails to clear it leaves it for later, and the rest is sent all the same.
    let mixed = || read(&["!a:x", "!b:x"], vec![heads(&["$a"], &[]), heads(&[], &[])]);
    assert_eq!(mixed().action(), Action::ClearOwed(&texts(&["!b:x"])));
    for outcome in [Outcome::Done, Outcome::Fault] {
        let task = mixed().step(outcome).0;
        assert_eq!(task.action(), Action::Name);
        match task.step(Outcome::Named("42-1".to_owned())).0.action() {
            Action::Send(txn) => {
                assert_eq!(txn.payload.purpose, Purpose::Advertisement);
                assert_eq!(txn.payload.heads, vec![("!a:x".to_owned(), heads(&["$a"], &[]))]);
            }
            other => panic!("{other:?}"),
        }
    }
    // Where all have heads, nothing is cleared first.
    let full = read(&["!a:x"], vec![heads(&["$a"], &[])]);
    assert_eq!(full.action(), Action::Name);
}

#[test]
fn an_idle_task_waits_for_the_store() {
    let idle = || {
        DestinationTask::start().step(Outcome::Pdus(vec![])).0.step(Outcome::Owed(vec![])).0
    };
    assert_eq!(idle().action(), Action::AwaitStored);
    assert_eq!(idle().step(Outcome::Stored).0.action(), Action::ReadPdus(50));
    assert_eq!(idle().step(Outcome::StoreGone).0.action(), Action::Stop);
    // An outcome that was not asked for changes nothing.
    assert_eq!(idle().step(Outcome::Done).0, idle());
    let failed = DestinationTask::start().step(Outcome::Fault).0;
    assert_eq!(failed.action(), Action::Wait(BACKOFF_BASE));
}

#[test]
fn destinations_are_served_once() {
    let dests = destinations_needing_a_task(&texts(&["b", "a"]), &texts(&["b", "c"]));
    assert_eq!(dests.items(), texts(&["a", "b", "c"]));
    let running = TextSet::from_items(&texts(&["a"]));
    let (fresh, running) = supervise_round(running, dests);
    assert_eq!(fresh, texts(&["b", "c"]));
    assert_eq!(running.items(), texts(&["a", "b", "c"]));
    assert_eq!(send_slots(0), 1);
    assert_eq!(send_slots(7), 7);
}

fn joined(user: &str) -> StateEntry {
    StateEntry {
        event_type: "m.room.member".to_owned(),
        state_key: user.to_owned(),
        event: member("$m", user, "join"),
    }
}

#[test]
fn local_events_go_to_the_servers_of_the_room() {
    let state = vec![joined("@a:us.example"), joined("@z:z.example"), joined("@b:b.example"), joined("@c:b.example")];
    let sent = |event: &Event| outbound_destinations(&state, event, "us.example");
    assert_eq!(sent(&message("$1")), texts(&["b.example", "z.example"]));
    // A kicked user's server is told, though it is no longer joined.
    let kick = event("$k", "m.room.member", "@a:us.example", Some("@q:gone.example"), r#"{"membership":"leave"}"#);
    assert_eq!(sent(&kick), texts(&["b.example", "gone.example", "z.example"]));
    // An invited user's server is not.
    let invite = event("$i", "m.room.member", "@a:us.example", Some("@q:new.example"), r#"{"membership":"invite"}"#);
    assert_eq!(sent(&invite), texts(&["b.example", "z.example"]));
}

#[test]
fn local_commits() {
    let state = vec![joined("@b:b.example")];
    let effects = |event| Ok(vec![Effect::Persist(event), Effect::UpdateCurrentState(7)]);
    let commit = commit_local(effects(message("$1")), &state, "us.example").unwrap();
    assert_eq!((commit.delta, commit.destinations), (Some(7), texts(&["b.example"])));
    let mut refused = message("$1");
    refused.rejected = true;
    assert_eq!(commit_local(effects(refused), &state, "us.example"), Err(RoomActorError::Rejected));
    let mut soft = message("$1");
    soft.soft_failed = true;
    assert!(commit_local(effects(soft), &state, "us.example").unwrap().destinations.is_empty());
    assert_eq!(
        commit_local::<u8>(Ok(vec![]), &state, "us.example"),
        Err(RoomActorError::NotApplied)
    );
    let (persisted, delta) = collect_effects(vec![Effect::UpdateCurrentState(1), Effect::Persist(message("$1"))]);
    assert_eq!((persisted.map(|e| e.event_id), delta), (Some("$1".to_owned()), Some(1)));
}

#[test]
fn resident_commits_are_distributed() {
    let state = vec![
        joined("@a:us.example"),
        joined("@y:other.example"),
        joined("@z:remote.example"),
    ];
    let commit = |events: Vec<Effect<u8>>| commit_resident(Ok(events), &state, "us.example");
    let join = || member("$j", "@z:remote.example", "join");
    // To the other servers of the room, but neither to us nor back to the one who joins.
    let committed = commit(vec![Effect::Persist(join())]).unwrap().unwrap();
    assert_eq!(committed.destinations, texts(&["other.example"]));
    // Sent again: stored before, so there is nothing to do.
    assert_eq!(commit(vec![]), Ok(None));
    let mut refused = join();
    refused.rejected = true;
    assert_eq!(commit(vec![Effect::Persist(refused)]), Err(RoomActorError::Rejected));
    assert_eq!(commit(vec![Effect::UpdateCurrentState(1)]), Err(RoomActorError::NotApplied));
    assert_eq!(
        commit_resident::<u8>(Err(RoomActorError::Apply("x".to_owned())), &state, "us.example"),
        Err(RoomActorError::Apply("x".to_owned()))
    );
}

#[test]
fn remote_commits() {
    // Stored before: nothing to do.
    assert_eq!(commit_remote::<u8>(Ok(vec![])), Ok(None));
    let mut refused = message("$1");
    refused.rejected = true;
    let commit = commit_remote::<u8>(Ok(vec![Effect::Persist(refused)])).unwrap().unwrap();
    assert!(commit.event.rejected && commit.destinations.is_empty());
    assert_eq!(
        commit_remote::<u8>(Err(RoomActorError::Apply("x".to_owned()))),
        Err(RoomActorError::Apply("x".to_owned()))
    );
    assert_eq!(commit_remote(Ok(vec![Effect::UpdateCurrentState(1)])), Err(RoomActorError::NotApplied));
}

#[test]
fn an_event_delivered_again_changes_nothing() {
    // The first time it is stored, and sent to no one.
    let first = commit_remote(Ok(vec![Effect::Persist(message("$1")), Effect::UpdateCurrentState(7)]));
    let commit = first.unwrap().unwrap();
    assert_eq!((commit.event.event_id.as_str(), commit.delta), ("$1", Some(7)));
    assert!(commit.destinations.is_empty());
    assert_eq!(adopt("before", "after", Ok(())), ("after", Ok(())));
    // The second time there is nothing to store, so the room stays as it is.
    assert_eq!(commit_remote::<u8>(Ok(vec![])), Ok(None));
}

#[test]
fn only_member_events_give_a_membership() {
    let joined = |ty: &str| event("$e", ty, "@a:x", Some("@a:x"), r#"{"membership":"join"}"#);
    assert_eq!(event_membership(&joined("m.room.member")), Some(Membership::Join));
    assert_eq!(event_membership(&joined("m.room.message")), None);
    let odd = event("$e", "m.room.member", "@a:x", Some("@a:x"), r#"{"membership":"odd"}"#);
    assert_eq!(event_membership(&odd), None);
    assert_eq!(event_membership(&event("$e", "m.room.member", "@a:x", None, "{}")), None);
}

#[test]
fn a_room_changes_only_when_stored() {
    assert_eq!(adopt(1, 2, Ok(())), (2, Ok(())));
    assert_eq!(adopt(1, 2, Err("io".to_owned())), (1, Err(RoomActorError::Storage("io".to_owned()))));
    assert_eq!(reply_of::<u8>(None), Err(RoomActorError::ActorGone));
    assert_eq!(reply_of(Some(Ok(3))), Ok(3));
    assert_eq!(bootstrap(Ok(Some(1))), Ok(1));
    assert_eq!(bootstrap::<u8>(Ok(None)), Err(RoomActorError::UnknownRoom));
    assert_eq!(bootstrap::<u8>(Err("io".to_owned())), Err(RoomActorError::Storage("io".to_owned())));
}

#[test]
fn a_room_has_one_actor() {
    let mut registry = RoomRegistry::new("us.example".to_owned());
    assert_eq!(registry.lookup("!r:x"), None);
    assert!(registry.register("!r:x", 1));
    assert!(!registry.register("!r:x", 2));
    assert!(registry.register("!s:x", 3));
    assert_eq!(registry.lookup("!r:x"), Some(&1));
    assert_eq!(Membership::from_wire("knock"), Some(Membership::Knock));
    assert_eq!(Membership::from_wire("Join"), None);
}
