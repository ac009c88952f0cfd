//! Transactions as they travel: what the sender writes and what the receiver reads.
//!
//! The body is a record: an object, or an array that gives the fields in their order. `origin`,
//! `pdus`, `edus` and `forward_extremities` may be left out; a server that does not advertise its
//! heads leaves out the last, and is then served as before.

use vstd::prelude::*;

use crate::event::{advertisement, opt_text, ForwardExtremities, Heads};
use crate::get_missing_events::{ids_in, ids_read_back, read_ids};
use crate::ids::{is_room_id, is_server_name, valid_event_id, valid_room_id, valid_server_name};
use crate::json::{member_models, member_position_is, models, Json, JsonModel};
use crate::send::{heads_json, heads_to_json, Answer};
use crate::text::{decimal, decimal_text};

verus! {

/// The heads of a room that a value gives: both lists must be there.
pub open spec fn heads_of_room(value: JsonModel) -> Option<Heads> {
    match (ids_in(value.get("timeline"@)), ids_in(value.get("state"@))) {
        (Some(timeline), Some(state)) => Some(Heads { timeline, state }),
        _ => None,
    }
}

/// Whether a member gives the heads of a room.
pub open spec fn is_room_heads(member: (Seq<char>, JsonModel)) -> bool {
    valid_room_id(member.0) && heads_of_room(member.1) is Some
}

/// The heads, by room, that a value gives. One that is left out gives none.
pub open spec fn heads_in(value: Option<JsonModel>) -> Option<Seq<(Seq<char>, Heads)>> {
    match value {
        None => Some(Seq::empty()),
        Some(JsonModel::Object(members)) => if forall|i: int|
            0 <= i < members.len() ==> is_room_heads(#[trigger] members[i]) {
            Some(
                members.map_values(
                    |m: (Seq<char>, JsonModel)| (m.0, heads_of_room(m.1)->Some_0),
                ),
            )
        } else {
            None
        },
        Some(_) => None,
    }
}

/// Reads heads by room.
pub fn read_heads(value: Option<&Json>) -> (heads: Option<Vec<(String, ForwardExtremities)>>)
    ensures
        ({
            let wanted = heads_in(
                match value {
                    Some(v) => Some(v.model()),
                    None => None,
                },
            );
            match heads {
                Some(heads) => wanted == Some(advertisement(heads@)),
                None => wanted is None,
            }
        }),
{
    let members = match value {
        None => {
            let none: Vec<(String, ForwardExtremities)> = Vec::new();
            assert(advertisement(none@) =~= Seq::empty());
            return Some(none);
        },
        Some(Json::Object(members)) => members,
        Some(_) => return None,
    };
    proof {
        Json::model_of_object(*members);
    }
    let ghost all = member_models(members@);
    let mut heads: Vec<(String, ForwardExtremities)> = Vec::new();
    let mut i: usize = 0;
    while i < members.len()
        invariant
            i <= members.len(),
            all == member_models(members@),
            value matches Some(v) && v.model() == JsonModel::Object(all),
            heads.len() == i,
            forall|k: int| 0 <= k < i ==> is_room_heads(#[trigger] all[k]),
            forall|k: int|
                0 <= k < i ==> ((#[trigger] heads@[k]).0@, heads@[k].1@) == (
                    all[k].0,
                    heads_of_room(all[k].1)->Some_0,
                ),
        decreases members.len() - i,
    {
        assert(all[i as int] == (members@[i as int].0@, members@[i as int].1.model()));
        if !is_room_id(members[i].0.as_str()) {
            assert(!is_room_heads(all[i as int]));
            return None;
        }
        let timeline = match read_ids(members[i].1.get("timeline")) {
            Some(ids) => ids,
            None => {
                assert(!is_room_heads(all[i as int]));
                return None;
            },
        };
        let state = match read_ids(members[i].1.get("state")) {
            Some(ids) => ids,
            None => {
                assert(!is_room_heads(all[i as int]));
                return None;
            },
        };
        heads.push((members[i].0.clone(), ForwardExtremities { timeline, state }));
        i += 1;
    }
    assert(advertisement(heads@) =~= all.map_values(
        |m: (Seq<char>, JsonModel)| (m.0, heads_of_room(m.1)->Some_0),
    ));
    Some(heads)
}

/// What a transaction carries.
#[derive(Debug, PartialEq, Eq)]
pub struct Envelope {
    /// The sending server, as the envelope claims it.
    pub origin: Option<String>,
    /// The events.
    pub pdus: Vec<Json>,
    /// The sender's heads, by room.
    pub forward_extremities: Vec<(String, ForwardExtremities)>,
}

/// What a transaction carries.
pub struct EnvelopeModel {
    pub origin: Option<Seq<char>>,
    pub pdus: Seq<JsonModel>,
    pub forward_extremities: Seq<(Seq<char>, Heads)>,
}

impl View for Envelope {
    type V = EnvelopeModel;

    open spec fn view(&self) -> EnvelopeModel {
        EnvelopeModel {
            origin: opt_text(self.origin),
            pdus: models(self.pdus@),
            forward_extremities: advertisement(self.forward_extremities@),
        }
    }
}

/// The origin that a value gives: absent or null is none, any other must be a server name.
pub open spec fn origin_in(value: Option<JsonModel>) -> Option<Option<Seq<char>>> {
    match value {
        None | Some(JsonModel::Null) => Some(None),
        Some(JsonModel::Str(name)) => if valid_server_name(name) {
            Some(Some(name))
        } else {
            None
        },
        Some(_) => None,
    }
}

/// The values of a list that may be left out.
pub open spec fn list_in(value: Option<JsonModel>) -> Option<Seq<JsonModel>> {
    match value {
        None => Some(Seq::empty()),
        Some(JsonModel::Array(items)) => Some(items),
        Some(_) => None,
    }
}

/// The transaction that a body holds, if it has the shape of one. Of `edus` only the shape counts.
pub open spec fn envelope_in(body: JsonModel) -> Option<EnvelopeModel> {
    match (
        origin_in(body.field("origin"@, 0)),
        list_in(body.field("pdus"@, 1)),
        list_in(body.field("edus"@, 2)),
        heads_in(body.field("forward_extremities"@, 3)),
    ) {
        (Some(origin), Some(pdus), Some(_), Some(forward_extremities)) if body.is_record(
            0,
            4,
        ) => Some(EnvelopeModel { origin, pdus, forward_extremities }),
        _ => None,
    }
}

/// Reads a list that may be left out.
pub fn read_list(value: Option<&Json>) -> (items: Option<Vec<Json>>)
    ensures
        ({
            let wanted = list_in(
                match value {
                    Some(v) => Some(v.model()),
                    None => None,
                },
            );
            match items {
                Some(items) => wanted == Some(models(items@)),
                None => wanted is None,
            }
        }),
{
    match value {
        None => {
            let none: Vec<Json> = Vec::new();
            assert(models(none@) =~= Seq::empty());
            Some(none)
        },
        Some(value) => {
            let twin = value.copy();
            match twin {
                Json::Array(items) => {
                    proof {
                        Json::model_of_array(items);
                    }
                    Some(items)
                },
                _ => None,
            }
        },
    }
}

/// Reads the body of a transaction.
pub fn read_transaction(body: &Json) -> (envelope: Option<Envelope>)
    ensures
        match envelope {
            Some(envelope) => envelope_in(body.model()) == Some(envelope@),
            None => envelope_in(body.model()) is None,
        },
{
    if !body.is_record(0, 4) {
        return None;
    }
    let origin = match body.field("origin", 0) {
        None => None,
        Some(Json::Null) => None,
        Some(Json::Str(name)) => {
            if !is_server_name(name.as_str()) {
                return None;
            }
            Some(name.clone())
        },
        Some(_) => return None,
    };
    let pdus = match read_list(body.field("pdus", 1)) {
        Some(pdus) => pdus,
        None => return None,
    };
    if read_list(body.field("edus", 2)).is_none() {
        return None;
    }
    match read_heads(body.field("forward_extremities", 3)) {
        Some(forward_extremities) => Some(Envelope { origin, pdus, forward_extremities }),
        None => None,
    }
}

/// The body of a transaction. The heads are left out where there are none.
pub open spec fn transaction_json(
    origin: Seq<char>,
    origin_server_ts: u64,
    pdus: Seq<JsonModel>,
    heads: Seq<(Seq<char>, Heads)>,
) -> JsonModel {
    let members = seq![
        ("origin"@, JsonModel::Str(origin)),
        ("origin_server_ts"@, JsonModel::Number(decimal(origin_server_ts as nat))),
        ("pdus"@, JsonModel::Array(pdus)),
        ("edus"@, JsonModel::Array(Seq::empty())),
    ];
    if heads.len() == 0 {
        JsonModel::Object(members)
    } else {
        JsonModel::Object(members.push(("forward_extremities"@, heads_json(heads))))
    }
}

/// The body of a transaction, with the events in the order given and no ephemeral ones.
pub fn transaction_to_json(
    origin: &str,
    origin_server_ts: u64,
    pdus: Vec<Json>,
    heads: &Vec<(String, ForwardExtremities)>,
) -> (json: Json)
    ensures
        json.model() == transaction_json(
            origin@,
            origin_server_ts,
            models(pdus@),
            advertisement(heads@),
        ),
{
    let edus: Vec<Json> = Vec::new();
    assert(models(edus@) =~= Seq::empty());
    let ghost want = transaction_json(
        origin@,
        origin_server_ts,
        models(pdus@),
        advertisement(heads@),
    )->Object_0;
    let json = Json::single("origin", Json::string(origin)).and(
        "origin_server_ts",
        Json::Number(decimal_text(origin_server_ts)),
    ).and("pdus", Json::array(pdus)).and("edus", Json::array(edus));
    let json = if heads.len() == 0 {
        json
    } else {
        json.and("forward_extremities", heads_to_json(heads))
    };
    assert(json.model()->Object_0 =~= want);
    json
}

/// The heads that an answer to a transaction advertises, if it has the shape of one; an answer that
/// does not speak of heads gives none.
pub open spec fn answer_in(body: JsonModel) -> Option<Seq<(Seq<char>, Heads)>> {
    if body.is_record(0, 1) {
        heads_in(body.field("forward_extremities"@, 0))
    } else {
        None
    }
}

/// Reads the heads that a peer advertises in its answer to a transaction.
pub fn read_answer(body: &Json) -> (heads: Option<Vec<(String, ForwardExtremities)>>)
    ensures
        match heads {
            Some(heads) => answer_in(body.model()) == Some(advertisement(heads@)),
            None => answer_in(body.model()) is None,
        },
{
    if !body.is_record(0, 1) {
        return None;
    }
    read_heads(body.field("forward_extremities", 0))
}

/// Whether heads by room can travel: each room and each event has an identifier of its kind.
pub open spec fn heads_valid(rooms: Seq<(Seq<char>, Heads)>) -> bool {
    forall|i: int|
        0 <= i < rooms.len() ==> {
            &&& valid_room_id((#[trigger] rooms[i]).0)
            &&& forall|k: int|
                0 <= k < rooms[i].1.timeline.len() ==> valid_event_id(
                    #[trigger] rooms[i].1.timeline[k],
                )
            &&& forall|k: int|
                0 <= k < rooms[i].1.state.len() ==> valid_event_id(#[trigger] rooms[i].1.state[k])
        }
}

/// Heads are read as they were written.
pub proof fn heads_round_trip(rooms: Seq<(Seq<char>, Heads)>)
    requires
        heads_valid(rooms),
    ensures
        heads_in(Some(heads_json(rooms))) == Some(rooms),
{
    reveal_strlit("timeline");
    reveal_strlit("state");
    let members = heads_json(rooms)->Object_0;
    assert forall|i: int| 0 <= i < members.len() implies {
        &&& is_room_heads(#[trigger] members[i])
        &&& heads_of_room(members[i].1) == Some(rooms[i].1)
    } by {
        let heads = rooms[i].1;
        assert(valid_room_id(rooms[i].0));
        let lists = members[i].1->Object_0;
        assert(lists[0].0.len() == 8);
        assert(lists[1].0.len() == 5);
        member_position_is(lists, "timeline"@, 0, 0);
        member_position_is(lists, "state"@, 0, 1);
        ids_read_back(heads.timeline);
        ids_read_back(heads.state);
    }
    assert(members.map_values(|m: (Seq<char>, JsonModel)| (m.0, heads_of_room(m.1)->Some_0))
        =~= rooms);
}

/// What one server sends the other reads: the origin, the events in their order, and the heads.
pub proof fn transaction_round_trips(
    origin: Seq<char>,
    origin_server_ts: u64,
    pdus: Seq<JsonModel>,
    heads: Seq<(Seq<char>, Heads)>,
)
    requires
        valid_server_name(origin),
        heads_valid(heads),
    ensures
        envelope_in(transaction_json(origin, origin_server_ts, pdus, heads)) == Some(
            EnvelopeModel { origin: Some(origin), pdus, forward_extremities: heads },
        ),
{
    reveal_strlit("origin");
    reveal_strlit("origin_server_ts");
    reveal_strlit("pdus");
    reveal_strlit("edus");
    reveal_strlit("forward_extremities");
    let members = transaction_json(origin, origin_server_ts, pdus, heads)->Object_0;
    assert(members[0].0.len() == 6);
    assert(members[1].0.len() == 16);
    assert("pdus"@[0] != "edus"@[0]);
    member_position_is(members, "origin"@, 0, 0);
    member_position_is(members, "pdus"@, 0, 2);
    member_position_is(members, "edus"@, 0, 3);
    member_position_is(members, "forward_extremities"@, 0, 4);
    heads_round_trip(heads);
    assert(heads.len() == 0 ==> heads =~= Seq::empty());
}

/// What one server answers the other reads: the heads come back as they were advertised.
pub proof fn answer_round_trips(answer: Answer)
    requires
        heads_valid(advertisement(answer.forward_extremities@)),
    ensures
        answer_in(answer.json()) == Some(advertisement(answer.forward_extremities@)),
{
    reveal_strlit("pdus");
    reveal_strlit("forward_extremities");
    let members = answer.json()->Object_0;
    assert(members[0].0.len() == 4);
    member_position_is(members, "forward_extremities"@, 0, 1);
    heads_round_trip(advertisement(answer.forward_extremities@));
    assert(answer.forward_extremities@.len() == 0 ==> advertisement(answer.forward_extremities@)
        =~= Seq::empty());
}

/// A transaction reaches the other server whole: what one writes the other reads, with the origin, every
/// event in its order, and the heads.
pub proof fn sent_transaction_is_read(
    origin: &str,
    origin_server_ts: u64,
    pdus: Vec<Json>,
    heads: Vec<(String, ForwardExtremities)>,
    json: Json,
    envelope: Option<Envelope>,
    i: int,
)
    requires
        valid_server_name(origin@),
        heads_valid(advertisement(heads@)),
        call_ensures(transaction_to_json, (origin, origin_server_ts, pdus, &heads), json),
        call_ensures(read_transaction, (&json,), envelope),
    ensures
        envelope is Some,
        envelope->0.origin is Some && envelope->0.origin->0@ == origin@,
        envelope->0.pdus@.len() == pdus@.len(),
        0 <= i < pdus@.len() ==> envelope->0.pdus@[i].model() == pdus@[i].model(),
        advertisement(envelope->0.forward_extremities@) == advertisement(heads@),
{
    transaction_round_trips(origin@, origin_server_ts, models(pdus@), advertisement(heads@));
    let read = envelope->0;
    assert(opt_text(read.origin) == Some(origin@));
    assert(models(read.pdus@).len() == models(pdus@).len());
    if 0 <= i < pdus@.len() {
        assert(models(read.pdus@)[i] == models(pdus@)[i]);
    }
}

/// The answer to a transaction reaches the sender: the heads that it advertises are read as they are.
pub proof fn sent_answer_is_read(answer: Answer, json: Json, heads: Option<Vec<(String, ForwardExtremities)>>)
    requires
        heads_valid(advertisement(answer.forward_extremities@)),
        call_ensures(Answer::to_json, (&answer,), json),
        call_ensures(read_answer, (&json,), heads),
    ensures
        heads is Some,
        advertisement(heads->0@) == advertisement(answer.forward_extremities@),
{
    answer_round_trips(answer);
}

/// Heads are understood exactly if each room has an identifier and gives both its lists; none are
/// given where they are left out.
pub proof fn heads_are_understood(
    value: Json,
    heads: Option<Vec<(String, ForwardExtremities)>>,
    none: Option<Vec<(String, ForwardExtremities)>>,
    i: int,
)
    requires
        call_ensures(read_heads, (Some(&value),), heads),
        call_ensures(read_heads, (None,), none),
    ensures
        none is Some && none->0@.len() == 0,
        !(value.model() is Object) ==> heads is None,
        heads is Some ==> heads->0@.len() == value.model().members().len(),
        0 <= i < value.model().members().len() ==> {
            let member = value.model().members()[i];
            &&& !valid_room_id(member.0) ==> heads is None
            &&& ids_in(member.1.get("timeline"@)) is None ==> heads is None
            &&& ids_in(member.1.get("state"@)) is None ==> heads is None
            &&& heads is Some ==> heads->0@[i].0@ == member.0 && ids_in(member.1.get("timeline"@))
                == Some(heads->0@[i].1@.timeline) && ids_in(member.1.get("state"@)) == Some(
                heads->0@[i].1@.state,
            )
        },
{
    assert(advertisement(none->0@).len() == none->0@.len());
    if let JsonModel::Object(members) = value.model() {
        if 0 <= i < members.len() && heads is Some {
            assert(advertisement(heads->0@).len() == members.len());
            assert(advertisement(heads->0@).len() == heads->0@.len());
            assert(is_room_heads(members[i]));
            assert(advertisement(heads->0@)[i] == (heads->0@[i].0@, heads->0@[i].1@));
        }
        if heads is Some {
            assert(advertisement(heads->0@).len() == members.len());
        }
    }
}

/// A transaction is an object, of which every member may be left out, or an array of at most four
/// fields; its events are a list; its origin is a server name, if it gives one.
pub proof fn transaction_is_understood(body: Json, envelope: Option<Envelope>)
    requires
        call_ensures(read_transaction, (&body,), envelope),
    ensures
        ({
            let read = body.model();
            &&& !(read is Object) && !(read is Array) ==> envelope is None
            &&& read is Array && read.items().len() > 4 ==> envelope is None
            &&& read == JsonModel::Array(Seq::empty()) || read == JsonModel::Object(Seq::empty())
                ==> envelope is Some && envelope->0.pdus@.len() == 0 && envelope->0.origin is None
            &&& read is Object ==> {
                &&& read.get("pdus"@) is Some && !(read.get("pdus"@)->0 is Array) ==> envelope is None
                &&& read.get("edus"@) is Some && !(read.get("edus"@)->0 is Array) ==> envelope is None
                &&& read.text_at("origin"@) matches Some(name) ==> (!valid_server_name(name)
                    ==> envelope is None)
                &&& envelope matches Some(envelope) ==> opt_text(envelope.origin) == read.text_at(
                    "origin"@,
                )
                &&& envelope matches Some(envelope) ==> (read.get("pdus"@) matches Some(
                    JsonModel::Array(items),
                ) ==> models(envelope.pdus@) == items)
                &&& envelope matches Some(envelope) ==> (read.get("pdus"@) is None
                    ==> envelope.pdus@.len() == 0)
            }
        }),
{
    let read = body.model();
    if let Some(envelope) = envelope {
        assert(models(envelope.pdus@).len() == envelope.pdus@.len());
    }
    if read == JsonModel::Object(Seq::empty()) {
        member_position_is(Seq::empty(), "origin"@, 0, 0);
        member_position_is(Seq::empty(), "pdus"@, 0, 0);
        member_position_is(Seq::empty(), "edus"@, 0, 0);
        member_position_is(Seq::empty(), "forward_extremities"@, 0, 0);
    }
}

} // verus!
