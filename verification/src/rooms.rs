//! Creating rooms, and reading and writing their events, for clients.

use vstd::prelude::*;
use vstd::seq_lib::lemma_seq_contains_after_push;
use vstd::string::StringExecFns;

use crate::event::{opt_text, Event};
use crate::ids::{
    check_room_id, is_user_id, room_id_complaint, valid_room_id, valid_user_id, ROOM_VERSION_ID,
};
use crate::json::{member_position_is, models, Json, JsonModel};
use crate::response::{
    error_response, Response, BAD_REQUEST, INTERNAL_SERVER_ERROR, NOT_FOUND, OK,
};
use crate::room_actor::{room_actor_response, Effect, RoomActorError};
use crate::text::same_text;

verus! {

/// An event that is yet to be built: who authors it, its type, its state key where it is a state
/// event, and its content.
#[derive(Debug, PartialEq, Eq)]
pub struct Draft {
    pub sender: String,
    pub event_type: String,
    pub state_key: Option<String>,
    pub content: Json,
}

/// What a draft is.
pub struct DraftModel {
    pub sender: Seq<char>,
    pub event_type: Seq<char>,
    pub state_key: Option<Seq<char>>,
    pub content: JsonModel,
}

impl View for Draft {
    type V = DraftModel;

    open spec fn view(&self) -> DraftModel {
        DraftModel {
            sender: self.sender@,
            event_type: self.event_type@,
            state_key: opt_text(self.state_key),
            content: self.content.model(),
        }
    }
}

/// Drafts as they are.
pub open spec fn drafts(items: Seq<Draft>) -> Seq<DraftModel> {
    items.map_values(|d: Draft| d@)
}

/// An object with one member that is a text.
pub open spec fn text_member(key: Seq<char>, value: Seq<char>) -> JsonModel {
    JsonModel::Object(seq![(key, JsonModel::Str(value))])
}

/// The draft of a state event.
pub open spec fn draft(
    sender: Seq<char>,
    event_type: Seq<char>,
    state_key: Seq<char>,
    content: JsonModel,
) -> DraftModel {
    DraftModel { sender, event_type, state_key: Some(state_key), content }
}

/// The draft of a state event.
pub fn draft_of(sender: &str, event_type: &str, state_key: &str, content: Json) -> (d: Draft)
    ensures
        d@ == draft(sender@, event_type@, state_key@, content.model()),
{
    Draft {
        sender: sender.to_owned(),
        event_type: event_type.to_owned(),
        state_key: Some(state_key.to_owned()),
        content,
    }
}

/// Whether a request asks for a room that anyone may join. An explicit preset decides; without
/// one, the visibility does.
pub open spec fn asks_public(body: JsonModel) -> bool {
    match body.text_at("preset"@) {
        Some(preset) => preset == "public_chat"@,
        None => body.text_at("visibility"@) == Some("public"@),
    }
}

/// The join rule of a new room: only the preset `public_chat`, or without a preset the
/// visibility `public`, opens it.
pub fn join_rule_for(body: &Json) -> (rule: &'static str)
    ensures
        rule@ == if asks_public(body.model()) {
            "public"@
        } else {
            "invite"@
        },
{
    let is_public = match body.str_at("preset") {
        Some(preset) => same_text(preset.as_str(), "public_chat"),
        None => match body.str_at("visibility") {
            Some(visibility) => same_text(visibility.as_str(), "public"),
            None => false,
        },
    };
    if is_public {
        "public"
    } else {
        "invite"
    }
}

/// The power levels of a new room. The creator is all-powerful without being named.
pub open spec fn power_levels() -> JsonModel {
    let n0 = JsonModel::Number("0"@);
    let n50 = JsonModel::Number("50"@);
    let n100 = JsonModel::Number("100"@);
    JsonModel::Object(
        seq![
            ("ban"@, n50),
            (
                "events"@,
                JsonModel::Object(
                    seq![
                        ("m.room.name"@, n50),
                        ("m.room.power_levels"@, n100),
                        ("m.room.history_visibility"@, n100),
                        ("m.room.canonical_alias"@, n50),
                        ("m.room.tombstone"@, n100),
                        ("m.room.server_acl"@, n100),
                    ],
                ),
            ),
            ("events_default"@, n0),
            ("invite"@, n0),
            ("kick"@, n50),
            ("redact"@, n50),
            ("state_default"@, n50),
            ("users"@, JsonModel::Object(Seq::empty())),
            ("users_default"@, n0),
            ("notifications"@, JsonModel::Object(seq![("room"@, n50)])),
        ],
    )
}

/// The power levels of a new room.
pub fn default_power_levels() -> (content: Json)
    ensures
        content.model() == power_levels(),
{
    let events = Json::empty_object().and("m.room.name", Json::number("50")).and(
        "m.room.power_levels",
        Json::number("100"),
    ).and("m.room.history_visibility", Json::number("100")).and(
        "m.room.canonical_alias",
        Json::number("50"),
    ).and("m.room.tombstone", Json::number("100")).and("m.room.server_acl", Json::number("100"));
    assert(events.model()->Object_0 =~= power_levels()->Object_0[1].1->Object_0);
    let content = Json::empty_object().and("ban", Json::number("50")).and("events", events).and(
        "events_default",
        Json::number("0"),
    ).and("invite", Json::number("0")).and("kick", Json::number("50")).and(
        "redact",
        Json::number("50"),
    ).and("state_default", Json::number("50")).and("users", Json::empty_object()).and(
        "users_default",
        Json::number("0"),
    ).and("notifications", Json::single("room", Json::number("50")));
    assert(content.model()->Object_0 =~= power_levels()->Object_0);
    content
}

/// The draft of the create event.
pub open spec fn create_model(sender: Seq<char>) -> DraftModel {
    draft(sender, "m.room.create"@, ""@, text_member("room_version"@, ROOM_VERSION_ID@))
}

/// The content of an invitation.
pub open spec fn invite_content(is_direct: bool) -> JsonModel {
    if is_direct {
        JsonModel::Object(
            seq![
                ("membership"@, JsonModel::Str("invite"@)),
                ("is_direct"@, JsonModel::Bool(true)),
            ],
        )
    } else {
        text_member("membership"@, "invite"@)
    }
}

/// Whether an entry of the list of those to invite is followed: a user other than the creator.
pub open spec fn invitable(entry: JsonModel, sender: Seq<char>) -> bool {
    entry matches JsonModel::Str(target) && target != sender && valid_user_id(target)
}

/// The drafts of the invitations for the entries of a list.
pub open spec fn invite_drafts(
    entries: Seq<JsonModel>,
    sender: Seq<char>,
    is_direct: bool,
) -> Seq<DraftModel>
    decreases entries.len(),
{
    if entries.len() == 0 {
        Seq::empty()
    } else {
        let before = invite_drafts(entries.drop_last(), sender, is_direct);
        if invitable(entries.last(), sender) {
            before.push(
                draft(
                    sender,
                    "m.room.member"@,
                    entries.last()->Str_0,
                    invite_content(is_direct),
                ),
            )
        } else {
            before
        }
    }
}

/// The drafts that every room has after its create event: the creator's join, the power levels,
/// the join rule and the history visibility, in this order.
pub open spec fn common_drafts(sender: Seq<char>, body: JsonModel) -> Seq<DraftModel> {
    seq![
        draft(sender, "m.room.member"@, sender, text_member("membership"@, "join"@)),
        draft(sender, "m.room.power_levels"@, ""@, power_levels()),
        draft(
            sender,
            "m.room.join_rules"@,
            ""@,
            text_member(
                "join_rule"@,
                if asks_public(body) {
                    "public"@
                } else {
                    "invite"@
                },
            ),
        ),
        draft(
            sender,
            "m.room.history_visibility"@,
            ""@,
            text_member("history_visibility"@, "shared"@),
        ),
    ]
}

/// A list with one more draft, where a member of the request gives a text for it.
pub open spec fn and_named(
    before: Seq<DraftModel>,
    sender: Seq<char>,
    body: JsonModel,
    key: Seq<char>,
    event_type: Seq<char>,
) -> Seq<DraftModel> {
    match body.text_at(key) {
        Some(value) => before.push(draft(sender, event_type, ""@, text_member(key, value))),
        None => before,
    }
}

/// All the drafts after the create event: those that every room has, the name and the topic that
/// the request gives, and the invitations.
pub open spec fn initial_drafts(sender: Seq<char>, body: JsonModel) -> Seq<DraftModel> {
    let named = and_named(
        and_named(common_drafts(sender, body), sender, body, "name"@, "m.room.name"@),
        sender,
        body,
        "topic"@,
        "m.room.topic"@,
    );
    match body.get("invite"@) {
        Some(JsonModel::Array(entries)) => named + invite_drafts(
            entries,
            sender,
            body.is_true_at("is_direct"@),
        ),
        _ => named,
    }
}

/// The draft of the create event.
pub fn create_draft(sender: &str) -> (d: Draft)
    ensures
        d@ == create_model(sender@),
{
    let content = Json::single("room_version", Json::string(ROOM_VERSION_ID));
    draft_of(sender, "m.room.create", "", content)
}

fn push_draft(list: Vec<Draft>, d: Draft) -> (longer: Vec<Draft>)
    ensures
        drafts(longer@) == drafts(list@).push(d@),
{
    let mut list = list;
    let ghost before = list@;
    list.push(d);
    assert(drafts(list@) =~= drafts(before).push(d@));
    list
}

fn push_named(list: Vec<Draft>, sender: &str, body: &Json, key: &str, event_type: &str) -> (longer:
    Vec<Draft>)
    ensures
        drafts(longer@) == and_named(drafts(list@), sender@, body.model(), key@, event_type@),
{
    match body.str_at(key) {
        Some(value) => push_draft(
            list,
            draft_of(sender, event_type, "", Json::single(key, Json::string(value.as_str()))),
        ),
        None => list,
    }
}

/// The drafts of the events that follow the create event, for a room that `sender` creates by
/// the request `body`. Malformed entries of the list of those to invite are skipped.
pub fn plan_initial_events(sender: &str, body: &Json) -> (plan: Vec<Draft>)
    ensures
        drafts(plan@) == initial_drafts(sender@, body.model()),
{
    let plan: Vec<Draft> = Vec::new();
    let plan = push_draft(
        plan,
        draft_of(
            sender,
            "m.room.member",
            sender,
            Json::single("membership", Json::string("join")),
        ),
    );
    let plan = push_draft(
        plan,
        draft_of(sender, "m.room.power_levels", "", default_power_levels()),
    );
    let plan = push_draft(
        plan,
        draft_of(
            sender,
            "m.room.join_rules",
            "",
            Json::single("join_rule", Json::string(join_rule_for(body))),
        ),
    );
    let plan = push_draft(
        plan,
        draft_of(
            sender,
            "m.room.history_visibility",
            "",
            Json::single("history_visibility", Json::string("shared")),
        ),
    );
    assert(drafts(plan@) =~= common_drafts(sender@, body.model()));
    let plan = push_named(plan, sender, body, "name", "m.room.name");
    let plan = push_named(plan, sender, body, "topic", "m.room.topic");
    let ghost named = drafts(plan@);
    let entries = match body.get("invite") {
        Some(Json::Array(entries)) => entries,
        _ => return plan,
    };
    let is_direct = body.true_at("is_direct");
    let ghost all = models(entries@);
    proof {
        Json::model_of_array(*entries);
    }
    let mut plan = plan;
    let mut i: usize = 0;
    assert(all.take(0) =~= Seq::empty());
    assert(drafts(plan@) =~= named + invite_drafts(all.take(0), sender@, is_direct));
    while i < entries.len()
        invariant
            i <= entries.len(),
            all == models(entries@),
            drafts(plan@) == named + invite_drafts(all.take(i as int), sender@, is_direct),
        decreases entries.len() - i,
    {
        assert(all.take(i + 1).drop_last() =~= all.take(i as int));
        assert(all.take(i + 1).last() == entries@[i as int].model());
        match entries[i].as_str() {
            Some(target) => {
                if !same_text(target.as_str(), sender) && is_user_id(target.as_str()) {
                    let content = Json::single("membership", Json::string("invite"));
                    let content = if is_direct {
                        let content = content.and("is_direct", Json::Bool(true));
                        assert(content.model()->Object_0 =~= invite_content(true)->Object_0);
                        content
                    } else {
                        content
                    };
                    let ghost before = drafts(plan@);
                    plan = push_draft(
                        plan,
                        draft_of(sender, "m.room.member", target.as_str(), content),
                    );
                    assert(drafts(plan@) =~= named + invite_drafts(
                        all.take(i + 1),
                        sender@,
                        is_direct,
                    ));
                }
            },
            None => {},
        }
        i += 1;
    }
    assert(all.take(i as int) =~= all);
    plan
}

/// Why a room could not be created. The events are the server's own, so each of these is a fault
/// of the server.
#[derive(Debug, PartialEq, Eq)]
pub enum CreateRoomError {
    Build(String),
    Apply(String),
    NotApplied,
}

impl CreateRoomError {
    /// The error in words.
    pub open spec fn text(self) -> Seq<char> {
        match self {
            CreateRoomError::Build(e) => "building initial event: "@ + e@,
            CreateRoomError::Apply(e) => "initial event rejected by auth rules: "@ + e@,
            CreateRoomError::NotApplied => "initial event produced no persist effect"@,
        }
    }

    /// The error in words.
    pub fn to_text(&self) -> (text: String)
        ensures
            text@ == self.text(),
    {
        match self {
            CreateRoomError::Build(e) => "building initial event: ".to_owned().concat(e.as_str()),
            CreateRoomError::Apply(e) => "initial event rejected by auth rules: ".to_owned().concat(
                e.as_str(),
            ),
            CreateRoomError::NotApplied => "initial event produced no persist effect".to_owned(),
        }
    }
}

/// The position of the first event to store among some effects, or their number.
pub open spec fn first_persist<D>(effects: Seq<Effect<D>>, from: int) -> int
    decreases effects.len() - from,
{
    if from < 0 || from >= effects.len() {
        effects.len() as int
    } else if effects[from] is Persist {
        from
    } else {
        first_persist(effects, from + 1)
    }
}

/// The event that applying a server's own event brings to be stored: the first named.
pub fn persisted_event<D>(effects: &Vec<Effect<D>>) -> (event: Result<Event, CreateRoomError>)
    ensures
        ({
            let at = first_persist(effects@, 0);
            if at < effects@.len() {
                event is Ok && event->Ok_0@ == effects@[at]->Persist_0@
            } else {
                event == Err::<Event, CreateRoomError>(CreateRoomError::NotApplied)
            }
        }),
{
    let mut i: usize = 0;
    while i < effects.len()
        invariant
            i <= effects.len(),
            first_persist(effects@, 0) == first_persist(effects@, i as int),
        decreases effects.len() - i,
    {
        match &effects[i] {
            Effect::Persist(event) => return Ok(event.copy()),
            Effect::UpdateCurrentState(_) => {},
        }
        i += 1;
    }
    Err(CreateRoomError::NotApplied)
}

/// The building of a room's initial events, one by one.
#[derive(Debug, PartialEq, Eq)]
pub struct RoomBirth {
    /// What is to be built, in order.
    pub plan: Vec<Draft>,
    /// What was built: the first `built.len()` of the plan.
    pub built: Vec<Event>,
}

impl RoomBirth {
    /// There are no more events than drafts.
    pub open spec fn wf(self) -> bool {
        self.built@.len() <= self.plan@.len()
    }

    /// A room before the first of its initial events.
    pub fn start(sender: &str, body: &Json) -> (birth: RoomBirth)
        ensures
            birth.wf(),
            drafts(birth.plan@) == initial_drafts(sender@, body.model()),
            birth.built@.len() == 0,
    {
        RoomBirth { plan: plan_initial_events(sender, body), built: Vec::new() }
    }

    /// What is to be built next, if anything is left.
    pub fn next(&self) -> (d: Option<&Draft>)
        requires
            self.wf(),
        ensures
            match d {
                Some(d) => self.built@.len() < self.plan@.len() && *d
                    == self.plan@[self.built@.len() as int],
                None => self.built@.len() == self.plan@.len(),
            },
    {
        if self.built.len() < self.plan.len() {
            Some(&self.plan[self.built.len()])
        } else {
            None
        }
    }

    /// Takes in what came of building and applying the next event: what is stored is what applying
    /// it gave back. The first failure ends it all.
    pub fn applied<D>(self, outcome: Result<Vec<Effect<D>>, CreateRoomError>) -> (birth: Result<
        RoomBirth,
        CreateRoomError,
    >)
        requires
            self.wf(),
            self.built@.len() < self.plan@.len(),
        ensures
            match outcome {
                Err(e) => birth == Err::<RoomBirth, CreateRoomError>(e),
                Ok(effects) => {
                    let at = first_persist(effects@, 0);
                    if at < effects@.len() {
                        &&& birth is Ok
                        &&& birth->Ok_0.wf()
                        &&& birth->Ok_0.plan == self.plan
                        &&& birth->Ok_0.built@.len() == self.built@.len() + 1
                        &&& birth->Ok_0.built@.drop_last() == self.built@
                        &&& birth->Ok_0.built@.last()@ == effects@[at]->Persist_0@
                    } else {
                        birth == Err::<RoomBirth, CreateRoomError>(CreateRoomError::NotApplied)
                    }
                },
            },
    {
        match outcome {
            Err(e) => Err(e),
            Ok(effects) => match persisted_event(&effects) {
                Err(e) => Err(e),
                Ok(event) => {
                    let mut built = self.built;
                    let ghost before = built@;
                    built.push(event);
                    assert(built@.drop_last() =~= before);
                    Ok(RoomBirth { plan: self.plan, built })
                },
            },
        }
    }
}

/// What a request to create a room is answered: the room's identifier, or a server error where
/// the events could not be built or stored.
pub fn create_room_response(
    built: Result<String, CreateRoomError>,
    stored: Result<(), String>,
) -> (response: Response)
    ensures
        match built {
            Err(e) => response.is_error(INTERNAL_SERVER_ERROR, "M_UNKNOWN"@, e.text()),
            Ok(room_id) => match stored {
                Err(e) => response.is_error(INTERNAL_SERVER_ERROR, "M_UNKNOWN"@, e@),
                Ok(_) => response.is(OK, text_member("room_id"@, room_id@)),
            },
        },
{
    match built {
        Err(e) => error_response(INTERNAL_SERVER_ERROR, "M_UNKNOWN", e.to_text().as_str()),
        Ok(room_id) => match stored {
            Err(e) => error_response(INTERNAL_SERVER_ERROR, "M_UNKNOWN", e.as_str()),
            Ok(_) => Response::ok(Json::single("room_id", Json::string(room_id.as_str()))),
        },
    }
}

/// The answer to a room identifier that is none.
pub fn refuse_room_id(room_id: &str) -> (refusal: Option<Response>)
    ensures
        match refusal {
            Some(response) => !valid_room_id(room_id@) && response.is_error(
                BAD_REQUEST,
                "M_INVALID_PARAM"@,
                room_id_complaint(room_id@),
            ),
            None => valid_room_id(room_id@),
        },
{
    match check_room_id(room_id) {
        Ok(_) => None,
        Err(complaint) => Some(
            error_response(BAD_REQUEST, "M_INVALID_PARAM", complaint.as_str()),
        ),
    }
}

/// What a client's request to write into a room comes to: the event that is to be built, authored
/// by the caller, or the answer where the room's identifier is none. Without a state key it is a
/// message, with one a state event.
pub fn plan_write(
    sender: &str,
    room_id: &str,
    event_type: &str,
    state_key: Option<&str>,
    content: Json,
) -> (plan: Result<Draft, Response>)
    ensures
        if valid_room_id(room_id@) {
            plan is Ok && plan->Ok_0@ == (DraftModel {
                sender: sender@,
                event_type: event_type@,
                state_key: match state_key {
                    Some(key) => Some(key@),
                    None => None,
                },
                content: content.model(),
            })
        } else {
            plan is Err && plan->Err_0.is_error(
                BAD_REQUEST,
                "M_INVALID_PARAM"@,
                room_id_complaint(room_id@),
            )
        },
{
    match refuse_room_id(room_id) {
        Some(response) => return Err(response),
        None => {},
    }
    let state_key = match state_key {
        Some(key) => Some(key.to_owned()),
        None => None,
    };
    Ok(
        Draft {
            sender: sender.to_owned(),
            event_type: event_type.to_owned(),
            state_key,
            content,
        },
    )
}

/// The answer of a store that failed.
pub fn storage_failed(error: &str) -> (response: Response)
    ensures
        response.is_error(INTERNAL_SERVER_ERROR, "M_UNKNOWN"@, error@),
{
    error_response(INTERNAL_SERVER_ERROR, "M_UNKNOWN", error)
}

/// The members of a room, whatever their membership; events that are no JSON are left out.
pub open spec fn readable(events: Seq<Option<Json>>) -> Seq<JsonModel>
    decreases events.len(),
{
    if events.len() == 0 {
        Seq::empty()
    } else {
        match events.last() {
            Some(json) => readable(events.drop_last()).push(json.model()),
            None => readable(events.drop_last()),
        }
    }
}

/// What a request for the members of a room is answered.
pub fn members_response(room_id: &str, events: Result<Vec<Option<Json>>, String>) -> (response:
    Response)
    ensures
        if !valid_room_id(room_id@) {
            response.is_error(BAD_REQUEST, "M_INVALID_PARAM"@, room_id_complaint(room_id@))
        } else {
            match events {
                Err(e) => response.is_error(INTERNAL_SERVER_ERROR, "M_UNKNOWN"@, e@),
                Ok(events) => response.is(
                    OK,
                    JsonModel::Object(seq![("chunk"@, JsonModel::Array(readable(events@)))]),
                ),
            }
        },
{
    match refuse_room_id(room_id) {
        Some(response) => return response,
        None => {},
    }
    let events = match events {
        Ok(events) => events,
        Err(e) => return storage_failed(e.as_str()),
    };
    let mut chunk: Vec<Json> = Vec::new();
    let mut i: usize = 0;
    assert(events@.take(0) =~= Seq::empty());
    assert(models(chunk@) =~= Seq::empty());
    while i < events.len()
        invariant
            i <= events.len(),
            models(chunk@) == readable(events@.take(i as int)),
        decreases events.len() - i,
    {
        assert(events@.take(i + 1).drop_last() =~= events@.take(i as int));
        match &events[i] {
            Some(json) => {
                let ghost before = chunk@;
                chunk.push(json.copy());
                assert(models(chunk@) =~= models(before).push(json.model()));
            },
            None => {},
        }
        i += 1;
    }
    assert(events@.take(i as int) =~= events@);
    Response::ok(Json::single("chunk", Json::array(chunk)))
}

/// What a request for the whole state of a room is answered: a bare array of its events.
pub fn state_response(room_id: &str, events: Result<Vec<Json>, String>) -> (response: Response)
    ensures
        if !valid_room_id(room_id@) {
            response.is_error(BAD_REQUEST, "M_INVALID_PARAM"@, room_id_complaint(room_id@))
        } else {
            match events {
                Err(e) => response.is_error(INTERNAL_SERVER_ERROR, "M_UNKNOWN"@, e@),
                Ok(events) => response.is(OK, JsonModel::Array(models(events@))),
            }
        },
{
    match refuse_room_id(room_id) {
        Some(response) => return response,
        None => {},
    }
    match events {
        Ok(events) => Response::ok(Json::array(events)),
        Err(e) => storage_failed(e.as_str()),
    }
}

/// How much of a state event a client asks for.
#[derive(Debug, Clone, Copy, PartialEq, Eq, Structural)]
pub enum StateFormat {
    /// Its content.
    Content,
    /// The whole event.
    Event,
}

/// The format that a request names; none where it names one that is unknown.
pub open spec fn format_named(format: Option<Seq<char>>) -> Option<StateFormat> {
    match format {
        None => Some(StateFormat::Content),
        Some(name) => if name == "content"@ {
            Some(StateFormat::Content)
        } else if name == "event"@ {
            Some(StateFormat::Event)
        } else {
            None
        },
    }
}

/// The format of the answer to a request for a state event, or the error that answers it: the
/// room identifier is checked first, then the format.
pub fn state_request(room_id: &str, format: Option<&str>) -> (accepted: Result<
    StateFormat,
    Response,
>)
    ensures
        ({
            let name = match format {
                Some(f) => Some(f@),
                None => None,
            };
            if !valid_room_id(room_id@) {
                accepted is Err && accepted->Err_0.is_error(
                    BAD_REQUEST,
                    "M_INVALID_PARAM"@,
                    room_id_complaint(room_id@),
                )
            } else {
                match format_named(name) {
                    Some(format) => accepted == Ok::<StateFormat, Response>(format),
                    None => accepted is Err && accepted->Err_0.is_error(
                        BAD_REQUEST,
                        "M_INVALID_PARAM"@,
                        "Unknown format: "@ + name->0,
                    ),
                }
            }
        }),
{
    match refuse_room_id(room_id) {
        Some(response) => return Err(response),
        None => {},
    }
    let format = match format {
        Some(format) => format,
        None => return Ok(StateFormat::Content),
    };
    if same_text(format, "content") {
        Ok(StateFormat::Content)
    } else if same_text(format, "event") {
        Ok(StateFormat::Event)
    } else {
        let message = "Unknown format: ".to_owned().concat(format);
        Err(error_response(BAD_REQUEST, "M_INVALID_PARAM", message.as_str()))
    }
}

/// A state event as a client is shown it: whole, and its content alone.
#[derive(Debug, PartialEq, Eq)]
pub struct ShownEvent {
    pub whole: Json,
    pub content: Json,
}

/// What a request for a state event is answered.
pub fn state_event_response(format: StateFormat, event: Result<Option<ShownEvent>, String>) -> (response:
    Response)
    ensures
        match event {
            Err(e) => response.is_error(INTERNAL_SERVER_ERROR, "M_UNKNOWN"@, e@),
            Ok(None) => response.is_error(NOT_FOUND, "M_NOT_FOUND"@, "Event not found."@),
            Ok(Some(event)) => response.is(
                OK,
                match format {
                    StateFormat::Content => event.content.model(),
                    StateFormat::Event => event.whole.model(),
                },
            ),
        },
{
    match event {
        Err(e) => storage_failed(e.as_str()),
        Ok(None) => error_response(NOT_FOUND, "M_NOT_FOUND", "Event not found."),
        Ok(Some(event)) => match format {
            StateFormat::Content => Response::ok(event.content),
            StateFormat::Event => Response::ok(event.whole),
        },
    }
}

/// What a client that wrote an event is answered: the event's identifier, or why it did not make
/// it into the room.
pub fn write_response(room_id: &str, sent: Result<String, RoomActorError>) -> (response: Response)
    ensures
        if !valid_room_id(room_id@) {
            response.is_error(BAD_REQUEST, "M_INVALID_PARAM"@, room_id_complaint(room_id@))
        } else {
            match sent {
                Ok(event_id) => response.is(OK, text_member("event_id"@, event_id@)),
                Err(e) => response.is_error(e.status(), e.errcode(), e.text()),
            }
        },
{
    match refuse_room_id(room_id) {
        Some(response) => return response,
        None => {},
    }
    match sent {
        Ok(event_id) => Response::ok(Json::single("event_id", Json::string(event_id.as_str()))),
        Err(e) => room_actor_response(&e),
    }
}

/// An unrecognised preset opens no room: only `public_chat` does, whatever the visibility.
pub proof fn preset_wins_over_visibility(body: JsonModel)
    requires
        body.text_at("preset"@) is Some,
    ensures
        asks_public(body) == (body.text_at("preset"@) == Some("public_chat"@)),
{
}

/// The creator invites, and is never invited; whoever is invited is named by a user identifier.
pub proof fn invitations_are_to_others(
    entries: Seq<JsonModel>,
    sender: Seq<char>,
    is_direct: bool,
    at: int,
)
    requires
        0 <= at < invite_drafts(entries, sender, is_direct).len(),
    ensures
        invite_drafts(entries, sender, is_direct)[at].sender == sender,
        invite_drafts(entries, sender, is_direct)[at].state_key != Some(sender),
        invite_drafts(entries, sender, is_direct)[at].state_key matches Some(target)
            && valid_user_id(target),
        invite_drafts(entries, sender, is_direct)[at].content == invite_content(is_direct),
    decreases entries.len(),
{
    if entries.len() > 0 {
        let before = invite_drafts(entries.drop_last(), sender, is_direct);
        if at < before.len() {
            invitations_are_to_others(entries.drop_last(), sender, is_direct, at);
        }
    }
}

/// The creator of a room authors each of its initial events, the invitations too.
pub proof fn creator_authors_all(sender: Seq<char>, body: JsonModel, at: int)
    requires
        0 <= at < initial_drafts(sender, body).len(),
    ensures
        create_model(sender).sender == sender,
        initial_drafts(sender, body)[at].sender == sender,
{
    let named = and_named(
        and_named(common_drafts(sender, body), sender, body, "name"@, "m.room.name"@),
        sender,
        body,
        "topic"@,
        "m.room.topic"@,
    );
    if at >= named.len() {
        let entries = body.get("invite"@)->0->Array_0;
        let is_direct = body.is_true_at("is_direct"@);
        invitations_are_to_others(entries, sender, is_direct, at - named.len());
    }
}

/// The users among the entries of a list, other than the creator, in order.
pub open spec fn others_in(entries: Seq<JsonModel>, sender: Seq<char>) -> Seq<JsonModel> {
    entries.filter(
        |entry: JsonModel|
            entry is Str && entry->Str_0 != sender && valid_user_id(entry->Str_0),
    )
}

proof fn invitations_follow_the_list(entries: Seq<JsonModel>, sender: Seq<char>, is_direct: bool)
    ensures
        invite_drafts(entries, sender, is_direct).len() == others_in(entries, sender).len(),
        forall|i: int|
            0 <= i < others_in(entries, sender).len() ==> {
                let invitation = #[trigger] invite_drafts(entries, sender, is_direct)[i];
                &&& invitation.sender == sender
                &&& invitation.event_type == "m.room.member"@
                &&& invitation.state_key == Some(others_in(entries, sender)[i]->Str_0)
                &&& invitation.content == invite_content(is_direct)
            },
    decreases entries.len(),
{
    reveal(Seq::filter);
    if entries.len() > 0 {
        invitations_follow_the_list(entries.drop_last(), sender, is_direct);
    }
}

proof fn invitation_is_read(is_direct: bool)
    ensures
        invite_content(is_direct).text_at("membership"@) == Some("invite"@),
        invite_content(is_direct).get("is_direct"@) == if is_direct {
            Some(JsonModel::Bool(true))
        } else {
            None
        },
{
    reveal_strlit("membership");
    reveal_strlit("is_direct");
    assert("membership"@.len() == 10 && "is_direct"@.len() == 9);
    let members = invite_content(is_direct)->Object_0;
    member_position_is(members, "membership"@, 0, 0);
    member_position_is(members, "is_direct"@, 0, 1);
}

/// How many events of a new room come before its invitations: four, and one each for a name and a
/// topic that the request gives.
pub open spec fn before_invitations(body: JsonModel) -> int {
    4 + (if body.text_at("name"@) is Some {
        1int
    } else {
        0
    }) + (if body.text_at("topic"@) is Some {
        1int
    } else {
        0
    })
}

/// Everyone is invited whom the request names: the plan of a room has one invitation for each entry
/// of the list that is a user identifier other than the creator's, in the order of the list, and
/// has no event besides those, the four of every room, the name and the topic. The invitations are
/// marked as direct exactly where the request is.
pub proof fn everyone_named_is_invited(sender: &str, body: Json, plan: Vec<Draft>, at: int)
    requires
        call_ensures(plan_initial_events, (sender, &body), plan),
        body.model().get("invite"@) matches Some(JsonModel::Array(_)),
    ensures
        ({
            let others = others_in(body.model().get("invite"@)->0->Array_0, sender@);
            let first = before_invitations(body.model());
            &&& plan@.len() == first + others.len()
            &&& 0 <= at < others.len() ==> {
                let invitation = plan@[first + at]@;
                &&& invitation.event_type == "m.room.member"@
                &&& invitation.sender == sender@
                &&& invitation.state_key == Some(others[at]->Str_0)
                &&& invitation.content.text_at("membership"@) == Some("invite"@)
                &&& invitation.content.get("is_direct"@) == if body.model().get("is_direct"@)
                    == Some(JsonModel::Bool(true)) {
                    Some(JsonModel::Bool(true))
                } else {
                    None
                }
            }
        }),
{
    let entries = body.model().get("invite"@)->0->Array_0;
    let is_direct = body.model().is_true_at("is_direct"@);
    invitations_follow_the_list(entries, sender@, is_direct);
    invitation_is_read(is_direct);
    let first = before_invitations(body.model());
    let all = drafts(plan@);
    assert(all.len() == plan@.len());
    if 0 <= at < others_in(entries, sender@).len() {
        assert(all[first + at] == plan@[first + at]@);
        assert(all[first + at] == invite_drafts(entries, sender@, is_direct)[at]);
    }
}

/// Whoever stands in the list as a user identifier, and is not the creator, is among those invited.
pub proof fn named_is_among_the_invited(entries: Seq<JsonModel>, sender: Seq<char>, at: int)
    requires
        0 <= at < entries.len(),
        entries[at] is Str,
        entries[at]->Str_0 != sender,
        valid_user_id(entries[at]->Str_0),
    ensures
        others_in(entries, sender).contains(entries[at]),
{
    entries.lemma_filter_contains(
        |entry: JsonModel|
            entry is Str && entry->Str_0 != sender && valid_user_id(entry->Str_0),
        at,
    );
}

/// Without a list no one is invited: the room has its four events, and a name and a topic where they
/// are given.
pub proof fn no_one_is_invited_unasked(sender: &str, body: Json, plan: Vec<Draft>)
    requires
        call_ensures(plan_initial_events, (sender, &body), plan),
        !(body.model().get("invite"@) matches Some(JsonModel::Array(_))),
    ensures
        plan@.len() == before_invitations(body.model()),
{
    assert(drafts(plan@).len() == plan@.len());
}

/// Every room begins with the creator's own join, then its power levels, its join rule and its
/// history visibility, all of them state events by the creator. The rule lets anyone in where the
/// request says so by its preset, or without a preset by its visibility, and else only those
/// invited; the history is shared.
pub proof fn every_room_begins_alike(sender: &str, body: Json, plan: Vec<Draft>)
    requires
        call_ensures(plan_initial_events, (sender, &body), plan),
    ensures
        plan@.len() >= 4,
        plan@[0]@.event_type == "m.room.member"@ && plan@[0]@.state_key == Some(sender@)
            && plan@[0]@.content.text_at("membership"@) == Some("join"@),
        plan@[1]@.event_type == "m.room.power_levels"@ && plan@[1]@.state_key == Some(""@)
            && plan@[1]@.content == power_levels(),
        plan@[2]@.event_type == "m.room.join_rules"@ && plan@[2]@.state_key == Some(""@),
        plan@[2]@.content.text_at("join_rule"@) == Some("public"@) || plan@[2]@.content.text_at(
            "join_rule"@,
        ) == Some("invite"@),
        plan@[2]@.content.text_at("join_rule"@) == Some("public"@) <==> body.model().text_at(
            "preset"@,
        ) == Some("public_chat"@) || (body.model().text_at("preset"@) is None
            && body.model().text_at("visibility"@) == Some("public"@)),
        plan@[3]@.event_type == "m.room.history_visibility"@ && plan@[3]@.state_key == Some(""@)
            && plan@[3]@.content.text_at("history_visibility"@) == Some("shared"@),
        forall|i: int| 0 <= i < plan@.len() ==> (#[trigger] plan@[i])@.sender == sender@,
{
    let all = drafts(plan@);
    assert(all.len() == plan@.len());
    assert(all[0] == plan@[0]@ && all[1] == plan@[1]@ && all[2] == plan@[2]@ && all[3]
        == plan@[3]@);
    text_member_is_read("membership"@, "join"@);
    text_member_is_read("history_visibility"@, "shared"@);
    text_member_is_read("join_rule"@, "public"@);
    text_member_is_read("join_rule"@, "invite"@);
    reveal_strlit("public");
    reveal_strlit("invite");
    assert("public"@[0] == 'p' && "invite"@[0] == 'i');
    assert forall|i: int| 0 <= i < plan@.len() implies (#[trigger] plan@[i])@.sender == sender@ by {
        creator_authors_all(sender@, body.model(), i);
        assert(all[i] == plan@[i]@);
    }
}

/// An object with one text is read as it was made.
pub proof fn text_member_is_read(key: Seq<char>, value: Seq<char>)
    ensures
        text_member(key, value).text_at(key) == Some(value),
{
    member_position_is(seq![(key, JsonModel::Str(value))], key, 0, 0);
}

/// A name and a topic that the request gives are set, in this order, after the four events of every
/// room, as they were given.
pub proof fn name_and_topic_are_set(sender: &str, body: Json, plan: Vec<Draft>)
    requires
        call_ensures(plan_initial_events, (sender, &body), plan),
    ensures
        body.model().text_at("name"@) is Some ==> plan@.len() > 4 && plan@[4]@.event_type
            == "m.room.name"@ && plan@[4]@.state_key == Some(""@) && plan@[4]@.content.text_at(
            "name"@,
        ) == body.model().text_at("name"@),
        body.model().text_at("topic"@) is Some ==> {
            let at: int = if body.model().text_at("name"@) is Some {
                5
            } else {
                4
            };
            &&& plan@.len() > at
            &&& plan@[at]@.event_type == "m.room.topic"@
            &&& plan@[at]@.state_key == Some(""@)
            &&& plan@[at]@.content.text_at("topic"@) == body.model().text_at("topic"@)
        },
{
    let all = drafts(plan@);
    assert(all.len() == plan@.len());
    if let Some(name) = body.model().text_at("name"@) {
        text_member_is_read("name"@, name);
        assert(all[4] == plan@[4]@);
    }
    if let Some(topic) = body.model().text_at("topic"@) {
        text_member_is_read("topic"@, topic);
        if body.model().text_at("name"@) is Some {
            assert(all[5] == plan@[5]@);
        } else {
            assert(all[4] == plan@[4]@);
        }
    }
}

/// The first event of a room is a state event by its creator that names the version of the room.
pub proof fn room_is_of_our_version(sender: &str, d: Draft)
    requires
        call_ensures(create_draft, (sender,), d),
    ensures
        d@.sender == sender@ && d@.event_type == "m.room.create"@ && d@.state_key == Some(""@),
        d@.content.text_at("room_version"@) == Some("org.matrix.msc4242.12"@),
{
    text_member_is_read("room_version"@, ROOM_VERSION_ID@);
}

/// The creator needs no level, and everyone else has none: whoever joins may write and invite;
/// changing the room, kicking, banning and redacting takes 50, changing who may do what 100.
pub proof fn levels_of_a_new_room()
    ensures
        power_levels().get("users_default"@) == Some(JsonModel::Number("0"@)),
        power_levels().get("events_default"@) == Some(JsonModel::Number("0"@)),
        power_levels().get("invite"@) == Some(JsonModel::Number("0"@)),
        power_levels().get("state_default"@) == Some(JsonModel::Number("50"@)),
        power_levels().get("kick"@) == Some(JsonModel::Number("50"@)),
        power_levels().get("ban"@) == Some(JsonModel::Number("50"@)),
        power_levels().get("redact"@) == Some(JsonModel::Number("50"@)),
        power_levels().get("users"@) == Some(JsonModel::Object(Seq::empty())),
        power_levels().get("events"@) is Some,
        power_levels().get("events"@)->0.get("m.room.power_levels"@) == Some(
            JsonModel::Number("100"@),
        ),
{
    let members = power_levels()->Object_0;
    reveal_strlit("ban");
    reveal_strlit("events");
    reveal_strlit("events_default");
    reveal_strlit("invite");
    reveal_strlit("kick");
    reveal_strlit("redact");
    reveal_strlit("state_default");
    reveal_strlit("users");
    reveal_strlit("users_default");
    reveal_strlit("m.room.name");
    reveal_strlit("m.room.power_levels");
    assert("ban"@.len() == 3 && "events_default"@.len() == 14 && "kick"@.len() == 4
        && "state_default"@.len() == 13 && "users"@.len() == 5 && "users_default"@.len() == 13);
    assert("events"@.len() == 6 && "invite"@.len() == 6 && "redact"@.len() == 6);
    assert("events"@[0] == 'e' && "invite"@[0] == 'i' && "redact"@[0] == 'r');
    assert("state_default"@[0] == 's' && "users_default"@[0] == 'u');
    member_position_is(members, "ban"@, 0, 0);
    member_position_is(members, "events"@, 0, 1);
    member_position_is(members, "events_default"@, 0, 2);
    member_position_is(members, "invite"@, 0, 3);
    member_position_is(members, "kick"@, 0, 4);
    member_position_is(members, "redact"@, 0, 5);
    member_position_is(members, "state_default"@, 0, 6);
    member_position_is(members, "users"@, 0, 7);
    member_position_is(members, "users_default"@, 0, 8);
    assert("m.room.name"@.len() == 11 && "m.room.power_levels"@.len() == 19);
    member_position_is(members[1].1->Object_0, "m.room.power_levels"@, 0, 1);
}

/// Whether the first event to store among some effects is the one at `i`.
pub open spec fn first_to_store<D>(effects: Seq<Effect<D>>, i: int) -> bool {
    &&& 0 <= i < effects.len()
    &&& effects[i] is Persist
    &&& forall|k: int| 0 <= k < i ==> !(#[trigger] effects[k] is Persist)
}

proof fn first_persist_is_first<D>(effects: Seq<Effect<D>>, from: int)
    requires
        0 <= from <= effects.len(),
    ensures
        from <= first_persist(effects, from) <= effects.len(),
        first_persist(effects, from) < effects.len() ==> effects[first_persist(effects, from)]
            is Persist,
        forall|k: int| from <= k < first_persist(effects, from) ==> !(#[trigger] effects[k] is Persist),
    decreases effects.len() - from,
{
    if from < effects.len() && !(effects[from] is Persist) {
        first_persist_is_first(effects, from + 1);
    }
}

/// A room is built from its plan, draft by draft: what was built stays, the next event is added at
/// the end, as applying it gave it back, and the first failure is the outcome.
pub proof fn built_draft_by_draft<D>(
    birth: RoomBirth,
    outcome: Result<Vec<Effect<D>>, CreateRoomError>,
    after: Result<RoomBirth, CreateRoomError>,
    at: int,
)
    requires
        call_ensures(RoomBirth::applied::<D>, (birth, outcome), after),
    ensures
        outcome matches Err(e) ==> after == Err::<RoomBirth, CreateRoomError>(e),
        outcome matches Ok(effects) && first_to_store(effects@, at) ==> {
            &&& after is Ok
            &&& after->Ok_0.plan == birth.plan
            &&& after->Ok_0.built@.len() == birth.built@.len() + 1
            &&& after->Ok_0.built@.last()@ == outcome->Ok_0@[at]->Persist_0@
            &&& forall|i: int|
                0 <= i < birth.built@.len() ==> #[trigger] after->Ok_0.built@[i] == birth.built@[i]
        },
        (outcome matches Ok(effects) && forall|i: int|
            0 <= i < effects@.len() ==> !(#[trigger] effects@[i] is Persist)) ==> after == Err::<
            RoomBirth,
            CreateRoomError,
        >(CreateRoomError::NotApplied),
{
    if let Ok(effects) = outcome {
        first_persist_is_first(effects@, 0);
        if first_to_store(effects@, at) {
            let first = first_persist(effects@, 0);
            if first < at {
                assert(effects@[first] is Persist);
            }
            assert forall|i: int| 0 <= i < birth.built@.len() implies #[trigger]
                after->Ok_0.built@[i] == birth.built@[i] by {
                assert(after->Ok_0.built@.drop_last()[i] == birth.built@[i]);
            }
        }
    }
}

/// What is built next is the first draft of the plan that was not built yet; nothing is left exactly
/// where all were.
pub proof fn drafts_are_taken_in_order(birth: RoomBirth, next: Option<&Draft>)
    requires
        birth.wf(),
        call_ensures(RoomBirth::next, (&birth,), next),
    ensures
        birth.built@.len() < birth.plan@.len() ==> next is Some && *next->0
            == birth.plan@[birth.built@.len() as int],
        birth.built@.len() == birth.plan@.len() ==> next is None,
{
}

/// A client that creates a room learns its identifier, and only where the room was both built and
/// stored; any failure is this server's.
pub proof fn created_only_when_stored(
    built: Result<String, CreateRoomError>,
    stored: Result<(), String>,
    response: Response,
)
    requires
        call_ensures(create_room_response, (built, stored), response),
    ensures
        response.status == 200 <==> built is Ok && stored is Ok,
        response.status == 200 ==> response.body.model().text_at("room_id"@) == Some(
            built->Ok_0@,
        ),
        response.status != 200 ==> response.status == 500,
{
    if let Ok(room_id) = built {
        text_member_is_read("room_id"@, room_id@);
    }
}

/// What a client writes is what is built: by the client's user, with the type, the key and the
/// content that were given; refused with 400 only where the room has no identifier.
pub proof fn written_as_given(
    sender: &str,
    room_id: &str,
    event_type: &str,
    state_key: Option<&str>,
    content: Json,
    plan: Result<Draft, Response>,
)
    requires
        call_ensures(plan_write, (sender, room_id, event_type, state_key, content), plan),
    ensures
        plan is Ok <==> valid_room_id(room_id@),
        plan matches Ok(d) ==> d.sender@ == sender@ && d.event_type@ == event_type@
            && d.content.model() == content.model(),
        plan matches Ok(d) ==> (d.state_key is Some <==> state_key is Some),
        plan matches Ok(d) ==> (d.state_key is Some ==> d.state_key->0@ == state_key->0@),
        plan matches Err(response) ==> response.status == 400,
{
    if let Ok(d) = plan {
        assert(d@.sender == d.sender@);
        assert(opt_text(d.state_key) == d@.state_key);
    }
}

proof fn readable_contains(events: Seq<Option<Json>>, at: int)
    requires
        0 <= at < events.len(),
    ensures
        events[at] matches Some(json) ==> readable(events).contains(json.model()),
        (forall|i: int| 0 <= i < events.len() ==> (#[trigger] events[i]) is Some) ==> readable(
            events,
        ).len() == events.len() && readable(events)[at] == events[at]->0.model(),
    decreases events.len(),
{
    let fewer = events.drop_last();
    if let Some(json) = events[at] {
        if let Some(last) = events.last() {
            lemma_seq_contains_after_push(readable(fewer), last.model(), json.model());
        }
    }
    if at < events.len() - 1 {
        readable_contains(fewer, at);
    } else if fewer.len() > 0 {
        readable_contains(fewer, 0);
    }
    if forall|i: int| 0 <= i < events.len() ==> (#[trigger] events[i]) is Some {
        assert forall|i: int| 0 <= i < fewer.len() implies (#[trigger] fewer[i]) is Some by {
            assert(events[i] is Some);
        }
        assert(events[events.len() - 1] is Some);
    }
}

/// No member of a room is left out of the list of its members: each of their events that is JSON
/// stands in it, in their order where all are.
pub proof fn every_member_is_listed(
    room_id: &str,
    events: Vec<Option<Json>>,
    response: Response,
    at: int,
)
    requires
        call_ensures(members_response, (room_id, Ok(events)), response),
        valid_room_id(room_id@),
        0 <= at < events@.len(),
    ensures
        response.status == 200,
        response.body.model().get("chunk"@) matches Some(JsonModel::Array(_)),
        ({
            let chunk = response.body.model().get("chunk"@)->0->Array_0;
            &&& events@[at] matches Some(json) ==> chunk.contains(json.model())
            &&& (forall|i: int| 0 <= i < events@.len() ==> (#[trigger] events@[i]) is Some) ==> {
                &&& chunk.len() == events@.len()
                &&& chunk[at] == events@[at]->0.model()
            }
        }),
{
    readable_contains(events@, at);
    member_position_is(
        seq![("chunk"@, JsonModel::Array(readable(events@)))],
        "chunk"@,
        0,
        0,
    );
}

/// A client reads the content of a state event unless it asks for the whole, which it then gets; an
/// event that is not there is answered 404.
pub proof fn state_is_read_as_asked(
    format: StateFormat,
    event: Result<Option<ShownEvent>, String>,
    response: Response,
)
    requires
        call_ensures(state_event_response, (format, event), response),
    ensures
        event matches Ok(Some(shown)) ==> response.status == 200,
        event matches Ok(Some(shown)) ==> (format == StateFormat::Content ==> response.body.model()
            == shown.content.model()),
        event matches Ok(Some(shown)) ==> (format == StateFormat::Event ==> response.body.model()
            == shown.whole.model()),
        event matches Ok(None) ==> response.status == 404,
        event is Err ==> response.status == 500,
{
}

/// A request for a state event is taken where its room has an identifier and its format, where it
/// names one, is `content` or `event`; without one it is `content`.
pub proof fn format_is_as_named(
    room_id: &str,
    format: Option<&str>,
    accepted: Result<StateFormat, Response>,
)
    requires
        call_ensures(state_request, (room_id, format), accepted),
    ensures
        accepted == Ok::<StateFormat, Response>(StateFormat::Event) <==> valid_room_id(room_id@)
            && format is Some && format->0@ == "event"@,
        accepted == Ok::<StateFormat, Response>(StateFormat::Content) <==> valid_room_id(room_id@)
            && (format is None || format->0@ == "content"@),
        accepted matches Err(response) ==> response.status == 400,
{
    reveal_strlit("event");
    reveal_strlit("content");
    assert("event"@.len() == 5 && "content"@.len() == 7);
}

/// A client that wrote an event learns its identifier where the room took it.
pub proof fn written_event_is_named(room_id: &str, event_id: String, response: Response)
    requires
        call_ensures(write_response, (room_id, Ok(event_id)), response),
        valid_room_id(room_id@),
    ensures
        response.status == 200,
        response.body.model().text_at("event_id"@) == Some(event_id@),
{
    text_member_is_read("event_id"@, event_id@);
}

/// The whole state of a room is answered: every event of it, in order.
pub proof fn whole_state_is_answered(room_id: &str, events: Vec<Json>, response: Response)
    requires
        call_ensures(state_response, (room_id, Ok(events)), response),
        valid_room_id(room_id@),
    ensures
        response.status == 200,
        response.body.model() == JsonModel::Array(models(events@)),
{
}

} // verus!
