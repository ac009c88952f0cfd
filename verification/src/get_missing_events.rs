//! `POST /_matrix/federation/v1/get_missing_events/{roomId}`: the events between some heads and a
//! boundary, for a server that shares the room.

use vstd::prelude::*;

use crate::auth::{attested, auth_refusal, authenticated_origin};
use crate::event::{event_models, Event, EventModel};
use crate::ids::{is_event_id, is_room_id, valid_event_id, valid_room_id};
use crate::json::{member_position_is, models, Json, JsonModel};
use crate::response::FedError;
use crate::send::{texts_json, texts_to_json};
use crate::text::{
    bounded_number, chars_of, decimal, decimal_is_digits, decimal_text, number_of_decimal,
    parse_number, same_text, slice, text_of, texts,
};
use crate::textset::TextSet;

verus! {

/// How many events are answered where the request does not say.
pub const DEFAULT_LIMIT: u32 = 10;

/// The most events that are answered. The requester's limit is honoured up to it, so that a deep
/// ancestry can be had in a few large pages.
pub const MAX_LIMIT: u32 = 1000;

/// The member of a request that asks for the walk along the state events.
pub const STATE_DAG_KEY: &'static str = "org.matrix.msc4242.state_dag";

/// The flag that asks for the walk along the state events, as it travels: a member of the request,
/// absent for `false`.
#[derive(Clone, Copy, Debug, PartialEq, Eq, Structural)]
pub struct StateDagFlag(pub bool);

impl StateDagFlag {
    /// The flag as an object of its own.
    pub fn to_json(&self) -> (json: Json)
        ensures
            json.model() == JsonModel::Object(seq![(STATE_DAG_KEY@, JsonModel::Bool(self.0))]),
    {
        Json::single(STATE_DAG_KEY, Json::Bool(self.0))
    }

    /// The flag in the body of a request: `false` where it is absent, none where it is no boolean.
    pub open spec fn in_body(body: JsonModel) -> Option<bool> {
        match body.get(STATE_DAG_KEY@) {
            None => Some(false),
            Some(JsonModel::Bool(b)) => Some(b),
            Some(_) => None,
        }
    }

    /// Reads the flag from the body of a request.
    pub fn read(body: &Json) -> (flag: Option<StateDagFlag>)
        ensures
            match flag {
                Some(flag) => StateDagFlag::in_body(body.model()) == Some(flag.0),
                None => StateDagFlag::in_body(body.model()) is None,
            },
    {
        match body.get(STATE_DAG_KEY) {
            None => Some(StateDagFlag(false)),
            Some(Json::Bool(b)) => Some(StateDagFlag(*b)),
            Some(_) => None,
        }
    }
}

/// The body of a request.
#[derive(Debug, PartialEq, Eq)]
pub struct RequestBody {
    /// How many events are wanted.
    pub limit: Option<u32>,
    /// The boundary that the requester holds.
    pub earliest_events: Vec<String>,
    /// The heads to walk back from.
    pub latest_events: Vec<String>,
    /// Whether to walk along the state events.
    pub state_dag: StateDagFlag,
    /// Whether the heads that are held are wanted too.
    pub include_latest_events: bool,
}

/// What the body of a request is.
pub struct RequestModel {
    pub limit: Option<u32>,
    pub earliest_events: Seq<Seq<char>>,
    pub latest_events: Seq<Seq<char>>,
    pub state_dag: bool,
    pub include_latest_events: bool,
}

impl View for RequestBody {
    type V = RequestModel;

    open spec fn view(&self) -> RequestModel {
        RequestModel {
            limit: self.limit,
            earliest_events: texts(self.earliest_events@),
            latest_events: texts(self.latest_events@),
            state_dag: self.state_dag.0,
            include_latest_events: self.include_latest_events,
        }
    }
}

/// An optional limit: absent or null is none, any other value must be a whole number that fits.
pub open spec fn limit_in(value: Option<JsonModel>) -> Option<Option<u32>> {
    match value {
        None | Some(JsonModel::Null) => Some(None),
        Some(JsonModel::Number(n)) => match bounded_number(n, u32::MAX as nat) {
            Some(n) => Some(Some(n as u32)),
            None => None,
        },
        Some(_) => None,
    }
}

/// Whether a number is a whole one of 64 bits with a sign. There is no negative zero among them.
pub open spec fn is_signed(n: Seq<char>) -> bool {
    if n.len() > 0 && n[0] == '-' {
        bounded_number(n.drop_first(), 0x8000_0000_0000_0000) matches Some(m) && m > 0
    } else {
        bounded_number(n, i64::MAX as nat) is Some
    }
}

/// Whether a depth is acceptable: it is looked at and then ignored.
pub open spec fn depth_in(value: Option<JsonModel>) -> bool {
    match value {
        None | Some(JsonModel::Null) => true,
        Some(JsonModel::Number(n)) => is_signed(n),
        Some(_) => false,
    }
}

/// Whether a value is a text that is an event identifier.
pub open spec fn is_id(value: JsonModel) -> bool {
    value matches JsonModel::Str(id) && valid_event_id(id)
}

/// A list of event identifiers: it must be there, and hold nothing else.
pub open spec fn ids_in(value: Option<JsonModel>) -> Option<Seq<Seq<char>>> {
    match value {
        Some(JsonModel::Array(items)) => if forall|i: int|
            0 <= i < items.len() ==> is_id(#[trigger] items[i]) {
            Some(items.map_values(|v: JsonModel| v->Str_0))
        } else {
            None
        },
        _ => None,
    }
}

/// An optional flag.
pub open spec fn flag_in(value: Option<JsonModel>) -> Option<bool> {
    match value {
        None => Some(false),
        Some(JsonModel::Bool(b)) => Some(b),
        Some(_) => None,
    }
}

/// The request that a body makes, if it has the shape of one.
pub open spec fn request_in(body: JsonModel) -> Option<RequestModel> {
    match (
        limit_in(body.get("limit"@)),
        ids_in(body.get("earliest_events"@)),
        ids_in(body.get("latest_events"@)),
        StateDagFlag::in_body(body),
        flag_in(body.get("include_latest_events"@)),
    ) {
        (
            Some(limit),
            Some(earliest_events),
            Some(latest_events),
            Some(state_dag),
            Some(include_latest_events),
        ) if depth_in(body.get("min_depth"@)) => Some(
            RequestModel {
                limit,
                earliest_events,
                latest_events,
                state_dag,
                include_latest_events,
            },
        ),
        _ => None,
    }
}

fn read_limit(value: Option<&Json>) -> (limit: Option<Option<u32>>)
    ensures
        limit == limit_in(
            match value {
                Some(v) => Some(v.model()),
                None => None,
            },
        ),
{
    match value {
        None => Some(None),
        Some(Json::Null) => Some(None),
        Some(Json::Number(n)) => match parse_number(n.as_str(), u32::MAX as u64) {
            Some(n) => Some(Some(n as u32)),
            None => None,
        },
        Some(_) => None,
    }
}

fn read_depth(value: Option<&Json>) -> (ok: bool)
    ensures
        ok == depth_in(
            match value {
                Some(v) => Some(v.model()),
                None => None,
            },
        ),
{
    match value {
        None => true,
        Some(Json::Null) => true,
        Some(Json::Number(n)) => {
            let chars = chars_of(n.as_str());
            if chars.len() > 0 && chars[0] == '-' {
                let rest = slice(&chars, 1, chars.len());
                assert(rest@ =~= n@.drop_first());
                match parse_number(text_of(&rest).as_str(), 0x8000_0000_0000_0000) {
                    Some(m) => m > 0,
                    None => false,
                }
            } else {
                parse_number(n.as_str(), i64::MAX as u64).is_some()
            }
        },
        Some(_) => false,
    }
}

/// Reads a list of event identifiers.
pub(crate) fn read_ids(value: Option<&Json>) -> (ids: Option<Vec<String>>)
    ensures
        ({
            let wanted = ids_in(
                match value {
                    Some(v) => Some(v.model()),
                    None => None,
                },
            );
            match ids {
                Some(ids) => wanted == Some(texts(ids@)),
                None => wanted is None,
            }
        }),
{
    let items = match value {
        Some(Json::Array(items)) => items,
        _ => return None,
    };
    proof {
        Json::model_of_array(*items);
    }
    let ghost all = models(items@);
    let mut ids: Vec<String> = Vec::new();
    let mut i: usize = 0;
    while i < items.len()
        invariant
            i <= items.len(),
            all == models(items@),
            value matches Some(v) && v.model() == JsonModel::Array(all),
            ids.len() == i,
            forall|k: int| 0 <= k < i ==> is_id(#[trigger] all[k]),
            forall|k: int| 0 <= k < i ==> (#[trigger] ids@[k])@ == all[k]->Str_0,
        decreases items.len() - i,
    {
        assert(all[i as int] == items@[i as int].model());
        match items[i].as_str() {
            Some(id) => {
                if !is_event_id(id.as_str()) {
                    assert(!is_id(all[i as int]));
                    return None;
                }
                ids.push(id.clone());
            },
            None => {
                assert(!is_id(all[i as int]));
                return None;
            },
        }
        i += 1;
    }
    assert(texts(ids@) =~= all.map_values(|v: JsonModel| v->Str_0));
    Some(ids)
}

/// Reads the body of a request.
pub fn read_request_body(body: &Json) -> (request: Option<RequestBody>)
    ensures
        match request {
            Some(request) => request_in(body.model()) == Some(request@),
            None => request_in(body.model()) is None,
        },
{
    let limit = match read_limit(body.get("limit")) {
        Some(limit) => limit,
        None => return None,
    };
    let earliest_events = match read_ids(body.get("earliest_events")) {
        Some(ids) => ids,
        None => return None,
    };
    let latest_events = match read_ids(body.get("latest_events")) {
        Some(ids) => ids,
        None => return None,
    };
    let state_dag = match StateDagFlag::read(body) {
        Some(flag) => flag,
        None => return None,
    };
    let include_latest_events = match body.get("include_latest_events") {
        None => false,
        Some(Json::Bool(b)) => *b,
        Some(_) => return None,
    };
    if !read_depth(body.get("min_depth")) {
        return None;
    }
    Some(RequestBody { limit, earliest_events, latest_events, state_dag, include_latest_events })
}

/// How many events are answered: 10 where the request does not say, and at most 1000.
pub open spec fn clamped(limit: Option<u32>) -> nat {
    match limit {
        None => DEFAULT_LIMIT as nat,
        Some(n) => if n < MAX_LIMIT {
            n as nat
        } else {
            MAX_LIMIT as nat
        },
    }
}

/// How many events are answered.
pub fn clamp_limit(limit: Option<u32>) -> (n: usize)
    ensures
        n == clamped(limit),
{
    match limit {
        None => DEFAULT_LIMIT as usize,
        Some(n) => if n < MAX_LIMIT {
            n as usize
        } else {
            MAX_LIMIT as usize
        },
    }
}

/// What is wrong with the body of a request, if anything is.
pub open spec fn body_complaint(body: Option<&Json>) -> Option<Seq<char>> {
    match body {
        None => Some("body is not valid JSON"@),
        Some(json) => match request_in(json.model()) {
            None => Some("body shape does not match the spec"@),
            Some(request) => if request.latest_events.len() == 0 {
                Some("latest_events must not be empty"@)
            } else {
                None
            },
        },
    }
}

/// Understands a request: its room, then the server that sent it, then its body, which is none
/// where it is not JSON.
pub fn read_request(
    room_id: &str,
    header: Option<&str>,
    our_name: &str,
    body: Option<&Json>,
) -> (request: Result<(String, RequestBody), FedError>)
    ensures
        if !valid_room_id(room_id@) {
            request matches Err(FedError::BadRequest(m)) && m@ == "invalid room_id"@
        } else {
            match auth_refusal(header, our_name@) {
                Some(refusal) => request matches Err(FedError::Unauthorized(m)) && m@ == refusal,
                None => match body_complaint(body) {
                    Some(complaint) => request matches Err(FedError::BadRequest(m)) && m@
                        == complaint,
                    None => request is Ok && attested(header) == Some(request->Ok_0.0@)
                        && request_in(body->0.model()) == Some(request->Ok_0.1@),
                },
            }
        },
{
    if !is_room_id(room_id) {
        return Err(FedError::BadRequest("invalid room_id"));
    }
    let origin = match authenticated_origin(header, our_name) {
        Ok(origin) => origin,
        Err(e) => return Err(e),
    };
    let json = match body {
        Some(json) => json,
        None => return Err(FedError::BadRequest("body is not valid JSON")),
    };
    let request = match read_request_body(json) {
        Some(request) => request,
        None => return Err(FedError::BadRequest("body shape does not match the spec")),
    };
    assert(texts(request.latest_events@).len() == request.latest_events@.len());
    if request.latest_events.len() == 0 {
        return Err(FedError::BadRequest("latest_events must not be empty"));
    }
    Ok((origin, request))
}

/// The heads that are added to an answer: those of the room that were not seen, each once, in
/// order.
pub open spec fn added_heads(
    held: Seq<EventModel>,
    room: Seq<char>,
    seen: Set<Seq<char>>,
) -> Seq<EventModel>
    decreases held.len(),
{
    if held.len() == 0 {
        Seq::empty()
    } else {
        let head = held[0];
        if head.room_id == room && !seen.contains(head.event_id) {
            seq![head] + added_heads(held.drop_first(), room, seen.insert(head.event_id))
        } else {
            added_heads(held.drop_first(), room, seen)
        }
    }
}

/// The events as they travel.
pub open spec fn raws(events: Seq<EventModel>) -> Seq<Seq<char>> {
    events.map_values(|e: EventModel| e.raw)
}

/// The identifiers of some events.
pub open spec fn ids_of(events: Seq<EventModel>) -> Seq<Seq<char>> {
    events.map_values(|e: EventModel| e.event_id)
}

/// The answer to a request: the walk along the timeline, which comes newest first, oldest first;
/// the walk along the state events as it comes; then, if they are wanted, the heads that are held.
pub open spec fn answer_of(
    walked: Seq<EventModel>,
    held: Seq<EventModel>,
    room: Seq<char>,
    state_dag: bool,
    include_latest_events: bool,
) -> Seq<EventModel> {
    let ordered = if state_dag {
        walked
    } else {
        walked.reverse()
    };
    if include_latest_events {
        ordered + added_heads(held, room, ids_of(walked).to_set())
    } else {
        ordered
    }
}

/// Puts the answer to a request together, from the walk and from the heads that are held.
pub fn answer(walked: &Vec<Event>, held: &Vec<Event>, room_id: &str, request: &RequestBody) -> (events:
    Vec<String>)
    ensures
        texts(events@) == raws(
            answer_of(
                event_models(walked@),
                event_models(held@),
                room_id@,
                request@.state_dag,
                request@.include_latest_events,
            ),
        ),
{
    let ghost all = event_models(walked@);
    let ghost ordered = if request.state_dag.0 {
        all
    } else {
        all.reverse()
    };
    let count = walked.len();
    let mut ids: Vec<String> = Vec::new();
    let mut events: Vec<String> = Vec::new();
    let mut i: usize = 0;
    while i < count
        invariant
            i <= count == walked.len(),
            all == event_models(walked@),
            ordered == (if request.state_dag.0 {
                all
            } else {
                all.reverse()
            }),
            ids.len() == i,
            events.len() == i,
            forall|k: int| 0 <= k < i ==> (#[trigger] ids@[k])@ == all[k].event_id,
            forall|k: int| 0 <= k < i ==> (#[trigger] events@[k])@ == ordered[k].raw,
        decreases count - i,
    {
        let which: usize = if request.state_dag.0 {
            i
        } else {
            count - 1 - i
        };
        ids.push(walked[i].event_id.clone());
        events.push(walked[which].raw.clone());
        i += 1;
    }
    assert(texts(events@) =~= raws(ordered));
    assert(texts(ids@) =~= ids_of(all));
    if !request.include_latest_events {
        return events;
    }
    let mut seen = TextSet::from_items(&ids);
    let ghost heads = event_models(held@);
    let ghost extra = added_heads(heads, room_id@, ids_of(all).to_set());
    let mut k: usize = 0;
    assert(heads.skip(0) =~= heads);
    assert(raws(ordered + extra) =~= texts(events@) + raws(extra));
    while k < held.len()
        invariant
            k <= held.len(),
            heads == event_models(held@),
            raws(ordered + extra) == texts(events@) + raws(
                added_heads(heads.skip(k as int), room_id@, seen@),
            ),
        decreases held.len() - k,
    {
        let head = &held[k];
        let ghost rest = heads.skip(k as int);
        let ghost before = events@;
        let ghost known = seen@;
        assert(rest[0] == head@);
        assert(rest.drop_first() =~= heads.skip(k + 1));
        if same_text(head.room_id.as_str(), room_id) {
            let (bigger, new) = seen.insert(head.event_id.clone());
            seen = bigger;
            if new {
                events.push(head.raw.clone());
                assert(texts(events@) =~= texts(before).push(head@.raw));
                assert(texts(before) + raws(added_heads(rest, room_id@, known)) =~= texts(events@)
                    + raws(added_heads(heads.skip(k + 1), room_id@, seen@)));
            } else {
                assert(seen@ =~= known);
            }
        }
        k += 1;
    }
    assert(heads.skip(k as int) =~= Seq::empty());
    assert(texts(events@) + raws(Seq::empty()) =~= texts(events@));
    events
}

/// An answer adds heads of the room alone: naming an event of another room brings nothing of it.
pub proof fn added_heads_are_of_the_room(
    held: Seq<EventModel>,
    room: Seq<char>,
    seen: Set<Seq<char>>,
    at: int,
)
    requires
        0 <= at < added_heads(held, room, seen).len(),
    ensures
        added_heads(held, room, seen)[at].room_id == room,
        !seen.contains(added_heads(held, room, seen)[at].event_id),
        held.contains(added_heads(held, room, seen)[at]),
    decreases held.len(),
{
    let rest = held.drop_first();
    let head = held[0];
    let kept = head.room_id == room && !seen.contains(head.event_id);
    if kept && at > 0 {
        added_heads_are_of_the_room(rest, room, seen.insert(head.event_id), at - 1);
        let found = added_heads(rest, room, seen.insert(head.event_id))[at - 1];
        let i = choose|i: int| 0 <= i < rest.len() && rest[i] == found;
        assert(held[i + 1] == found);
    } else if !kept {
        added_heads_are_of_the_room(rest, room, seen, at);
        let found = added_heads(rest, room, seen)[at];
        let i = choose|i: int| 0 <= i < rest.len() && rest[i] == found;
        assert(held[i + 1] == found);
    } else {
        assert(held[0] == head);
    }
}

/// No head is answered twice, nor one that the walk answered already.
pub proof fn added_heads_are_new(
    held: Seq<EventModel>,
    room: Seq<char>,
    seen: Set<Seq<char>>,
    i: int,
    j: int,
)
    requires
        0 <= i < j < added_heads(held, room, seen).len(),
    ensures
        added_heads(held, room, seen)[i].event_id != added_heads(held, room, seen)[j].event_id,
    decreases held.len(),
{
    let rest = held.drop_first();
    let head = held[0];
    if head.room_id == room && !seen.contains(head.event_id) {
        let more = seen.insert(head.event_id);
        if i > 0 {
            added_heads_are_new(rest, room, more, i - 1, j - 1);
        } else {
            added_heads_are_of_the_room(rest, room, more, j - 1);
        }
    } else {
        added_heads_are_new(rest, room, seen, i, j);
    }
}

/// The body of an outbound request.
pub open spec fn request_json(
    earliest: Seq<Seq<char>>,
    latest: Seq<Seq<char>>,
    limit: u32,
    state_dag: bool,
    include_latest_events: bool,
) -> JsonModel {
    JsonModel::Object(
        seq![
            ("earliest_events"@, texts_json(earliest)),
            ("latest_events"@, texts_json(latest)),
            ("limit"@, JsonModel::Number(decimal(limit as nat))),
            (STATE_DAG_KEY@, JsonModel::Bool(state_dag)),
            ("include_latest_events"@, JsonModel::Bool(include_latest_events)),
        ],
    )
}

/// The body of an outbound request.
pub fn request_to_json(
    earliest: &Vec<String>,
    latest: &Vec<String>,
    limit: u32,
    state_dag: bool,
    include_latest_events: bool,
) -> (json: Json)
    ensures
        json.model() == request_json(
            texts(earliest@),
            texts(latest@),
            limit,
            state_dag,
            include_latest_events,
        ),
{
    let json = Json::empty_object().and("earliest_events", texts_to_json(earliest)).and(
        "latest_events",
        texts_to_json(latest),
    ).and("limit", Json::Number(decimal_text(limit as u64))).and(
        STATE_DAG_KEY,
        Json::Bool(state_dag),
    ).and("include_latest_events", Json::Bool(include_latest_events));
    assert(json.model()->Object_0 =~= request_json(
        texts(earliest@),
        texts(latest@),
        limit,
        state_dag,
        include_latest_events,
    )->Object_0);
    json
}

/// A list of event identifiers is read as it was written.
pub proof fn ids_read_back(ids: Seq<Seq<char>>)
    requires
        forall|i: int| 0 <= i < ids.len() ==> valid_event_id(#[trigger] ids[i]),
    ensures
        ids_in(Some(texts_json(ids))) == Some(ids),
{
    let items = texts_json(ids)->Array_0;
    assert forall|i: int| 0 <= i < items.len() implies is_id(#[trigger] items[i]) by {
        assert(valid_event_id(ids[i]));
    }
    assert(items.map_values(|v: JsonModel| v->Str_0) =~= ids);
}

/// What one server asks the other reads: a request body that this library makes is read back as
/// it was made.
pub proof fn request_round_trips(
    earliest: Seq<Seq<char>>,
    latest: Seq<Seq<char>>,
    limit: u32,
    state_dag: bool,
    include_latest_events: bool,
)
    requires
        forall|i: int| 0 <= i < earliest.len() ==> valid_event_id(#[trigger] earliest[i]),
        forall|i: int| 0 <= i < latest.len() ==> valid_event_id(#[trigger] latest[i]),
    ensures
        request_in(request_json(earliest, latest, limit, state_dag, include_latest_events)) == Some(
            RequestModel {
                limit: Some(limit),
                earliest_events: earliest,
                latest_events: latest,
                state_dag,
                include_latest_events,
            },
        ),
{
    reveal_strlit("earliest_events");
    reveal_strlit("latest_events");
    reveal_strlit("limit");
    reveal_strlit("org.matrix.msc4242.state_dag");
    reveal_strlit("include_latest_events");
    reveal_strlit("min_depth");
    let members = request_json(
        earliest,
        latest,
        limit,
        state_dag,
        include_latest_events,
    )->Object_0;
    assert(members[0].0.len() == 15);
    assert(members[1].0.len() == 13);
    assert(members[2].0.len() == 5);
    assert(members[3].0.len() == 28);
    assert(members[4].0.len() == 21);
    member_position_is(members, "earliest_events"@, 0, 0);
    member_position_is(members, "latest_events"@, 0, 1);
    member_position_is(members, "limit"@, 0, 2);
    member_position_is(members, STATE_DAG_KEY@, 0, 3);
    member_position_is(members, "include_latest_events"@, 0, 4);
    member_position_is(members, "min_depth"@, 0, 5);
    number_of_decimal(limit as nat);
    ids_read_back(earliest);
    ids_read_back(latest);
}

/// As many events are answered as are asked for, up to 1000; 10 where the request does not say.
pub proof fn limit_is_honoured(limit: Option<u32>, n: usize)
    requires
        call_ensures(clamp_limit, (limit,), n),
    ensures
        limit is None ==> n == 10,
        limit matches Some(asked) ==> (asked <= 1000 ==> n == asked),
        limit matches Some(asked) ==> (asked > 1000 ==> n == 1000),
{
}

/// A request is understood exactly where its room has an identifier, its sender is attested, and its
/// body is one that names some heads; it is then what the body says, from whom the header says.
pub proof fn understood_exactly(
    room_id: &str,
    header: Option<&str>,
    our_name: &str,
    body: Option<&Json>,
    request: Result<(String, RequestBody), FedError>,
)
    requires
        call_ensures(read_request, (room_id, header, our_name, body), request),
    ensures
        request is Ok <==> {
            &&& valid_room_id(room_id@)
            &&& auth_refusal(header, our_name@) is None
            &&& body is Some
            &&& request_in(body->0.model()) is Some
            &&& request_in(body->0.model())->0.latest_events.len() > 0
        },
        request matches Ok((origin, asked)) ==> attested(header) == Some(origin@) && request_in(
            body->0.model(),
        ) == Some(asked@),
        request matches Err(e) ==> (e is Unauthorized <==> valid_room_id(room_id@) && auth_refusal(
            header,
            our_name@,
        ) is Some),
{
}

/// What is asked reaches the other server: what one writes into the body of a request the other reads
/// out of it, the limit, the boundary, the heads, and the two flags.
pub proof fn asked_is_read(
    earliest: Vec<String>,
    latest: Vec<String>,
    limit: u32,
    state_dag: bool,
    include_latest_events: bool,
    json: Json,
    request: Option<RequestBody>,
)
    requires
        forall|i: int| 0 <= i < earliest@.len() ==> valid_event_id((#[trigger] earliest@[i])@),
        forall|i: int| 0 <= i < latest@.len() ==> valid_event_id((#[trigger] latest@[i])@),
        call_ensures(
            request_to_json,
            (&earliest, &latest, limit, state_dag, include_latest_events),
            json,
        ),
        call_ensures(read_request_body, (&json,), request),
    ensures
        request is Some,
        request->0.limit == Some(limit),
        texts(request->0.earliest_events@) == texts(earliest@),
        texts(request->0.latest_events@) == texts(latest@),
        request->0.state_dag.0 == state_dag,
        request->0.include_latest_events == include_latest_events,
{
    assert forall|i: int| 0 <= i < texts(earliest@).len() implies valid_event_id(
        #[trigger] texts(earliest@)[i],
    ) by {
        assert(valid_event_id(earliest@[i]@));
    }
    assert forall|i: int| 0 <= i < texts(latest@).len() implies valid_event_id(
        #[trigger] texts(latest@)[i],
    ) by {
        assert(valid_event_id(latest@[i]@));
    }
    request_round_trips(
        texts(earliest@),
        texts(latest@),
        limit,
        state_dag,
        include_latest_events,
    );
}

proof fn unseen_head_is_added(
    held: Seq<EventModel>,
    room: Seq<char>,
    seen: Set<Seq<char>>,
    i: int,
)
    requires
        0 <= i < held.len(),
        held[i].room_id == room,
        !seen.contains(held[i].event_id),
    ensures
        exists|j: int|
            0 <= j < added_heads(held, room, seen).len() && (#[trigger] added_heads(
                held,
                room,
                seen,
            )[j]).event_id == held[i].event_id,
    decreases held.len(),
{
    let head = held[0];
    let rest = held.drop_first();
    let all = added_heads(held, room, seen);
    if head.room_id == room && !seen.contains(head.event_id) {
        assert(all[0] == head);
        if head.event_id != held[i].event_id {
            let more = seen.insert(head.event_id);
            assert(rest[i - 1] == held[i]);
            unseen_head_is_added(rest, room, more, i - 1);
            let found = added_heads(rest, room, more);
            let j = choose|j: int|
                0 <= j < found.len() && (#[trigger] found[j]).event_id == held[i].event_id;
            assert(all[j + 1] == found[j]);
        }
    } else {
        assert(i > 0);
        assert(rest[i - 1] == held[i]);
        unseen_head_is_added(rest, room, seen, i - 1);
    }
}

/// Every event that the walk found is answered: along the timeline, which is walked from the newest
/// back, the oldest comes first; along the state events they come as they were found. Nothing else
/// comes before the heads, and no heads come unless they are wanted.
pub proof fn walk_is_answered(
    walked: Vec<Event>,
    held: Vec<Event>,
    room_id: &str,
    request: RequestBody,
    events: Vec<String>,
    i: int,
)
    requires
        call_ensures(answer, (&walked, &held, room_id, &request), events),
    ensures
        events@.len() >= walked@.len(),
        !request.include_latest_events ==> events@.len() == walked@.len(),
        0 <= i < walked@.len() ==> events@[i]@ == if request.state_dag.0 {
            walked@[i].raw@
        } else {
            walked@[walked@.len() - 1 - i].raw@
        },
{
    let all = event_models(walked@);
    let ordered = if request.state_dag.0 {
        all
    } else {
        all.reverse()
    };
    let whole = answer_of(
        all,
        event_models(held@),
        room_id@,
        request.state_dag.0,
        request.include_latest_events,
    );
    assert(texts(events@).len() == raws(whole).len());
    if 0 <= i < walked@.len() {
        assert(texts(events@)[i] == raws(whole)[i]);
        assert(whole[i] == ordered[i]);
    }
}

/// A head that is wanted and held is answered, if it is of the room, unless the walk answered it
/// already.
pub proof fn wanted_heads_are_answered(
    walked: Vec<Event>,
    held: Vec<Event>,
    room_id: &str,
    request: RequestBody,
    events: Vec<String>,
    i: int,
)
    requires
        call_ensures(answer, (&walked, &held, room_id, &request), events),
        request.include_latest_events,
        0 <= i < held@.len(),
        held@[i].room_id@ == room_id@,
        forall|k: int| 0 <= k < walked@.len() ==> (#[trigger] walked@[k]).event_id@ != held@[i].event_id@,
        forall|k: int|
            0 <= k < held@.len() && (#[trigger] held@[k]).event_id@ == held@[i].event_id@ ==> held@[k].raw@
                == held@[i].raw@,
    ensures
        exists|j: int| walked@.len() <= j < events@.len() && (#[trigger] events@[j])@ == held@[i].raw@,
{
    let all = event_models(walked@);
    let heads = event_models(held@);
    let seen = ids_of(all).to_set();
    let extra = added_heads(heads, room_id@, seen);
    let whole = answer_of(all, heads, room_id@, request.state_dag.0, true);
    assert(heads[i] == held@[i]@);
    if seen.contains(heads[i].event_id) {
        let k = choose|k: int| 0 <= k < ids_of(all).len() && ids_of(all)[k] == heads[i].event_id;
        assert(walked@[k].event_id@ == heads[i].event_id);
    }
    unseen_head_is_added(heads, room_id@, seen, i);
    let j = choose|j: int| 0 <= j < extra.len() && (#[trigger] extra[j]).event_id == heads[i].event_id;
    added_heads_are_of_the_room(heads, room_id@, seen, j);
    let k = choose|k: int| 0 <= k < heads.len() && heads[k] == extra[j];
    assert(held@[k].event_id@ == held@[i].event_id@);
    assert(texts(events@).len() == raws(whole).len());
    assert(texts(events@)[walked@.len() + j] == raws(whole)[walked@.len() + j]);
    assert(whole[walked@.len() + j] == extra[j]);
    assert(events@[walked@.len() + j]@ == held@[i].raw@);
}

/// The flags of a request are what it says, and false where it does not say; a depth must be a whole
/// number with or without a sign, or be left out; a flag of another kind is no request.
pub proof fn flags_are_read(body: Json, request: Option<RequestBody>, n: nat)
    requires
        call_ensures(read_request_body, (&body,), request),
    ensures
        ({
            let asked = body.model();
            let depth = asked.get("min_depth"@);
            &&& request matches Some(request) ==> {
                &&& request.state_dag.0 == asked.is_true_at("org.matrix.msc4242.state_dag"@)
                &&& request.include_latest_events == asked.is_true_at("include_latest_events"@)
                &&& asked.get("limit"@) is None ==> request.limit is None
                &&& asked.get("limit"@) == Some(JsonModel::Number(decimal(n))) ==> request.limit
                    is Some && request.limit->0 == n
            }
            &&& asked.text_at("org.matrix.msc4242.state_dag"@) is Some ==> request is None
            &&& asked.text_at("include_latest_events"@) is Some ==> request is None
            &&& asked.text_at("min_depth"@) is Some ==> request is None
            &&& asked.text_at("limit"@) is Some ==> request is None
            &&& asked.get("limit"@) == Some(JsonModel::Number(decimal(n))) && n > u32::MAX
                ==> request is None
            &&& depth == Some(JsonModel::Number(decimal(n))) && n > i64::MAX ==> request is None
            &&& depth == Some(JsonModel::Number(seq!['-'] + decimal(n))) && (n == 0 || n
                > 0x8000_0000_0000_0000) ==> request is None
            &&& asked.get("earliest_events"@) is None || asked.get("latest_events"@) is None
                ==> request is None
        }),
{
    number_of_decimal(n);
    decimal_is_digits(n);
    assert((seq!['-'] + decimal(n)).drop_first() =~= decimal(n));
}

/// A depth may be any whole number of 64 bits, with a minus sign or without, or be left out.
pub proof fn acceptable_depths(n: nat)
    ensures
        n <= i64::MAX ==> depth_in(Some(JsonModel::Number(decimal(n)))),
        0 < n <= 0x8000_0000_0000_0000 ==> depth_in(Some(JsonModel::Number(seq!['-'] + decimal(n)))),
        depth_in(Some(JsonModel::Null)) && depth_in(None),
{
    number_of_decimal(n);
    decimal_is_digits(n);
    assert((seq!['-'] + decimal(n)).drop_first() =~= decimal(n));
}

} // verus!
