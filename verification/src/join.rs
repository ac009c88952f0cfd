//! Outbound federated join: a local user joins a room that this server does not host.
//!
//! Each candidate resident is tried in turn: ask it for a template, complete the template, send it
//! back, register the room from its create event, and stage all that came back; a worker applies
//! what is staged. Then the request waits until the join is in the current state, or time is up.
//! Asking, storing and waiting are done outside; what came of each is handed to
//! [`FederatedJoin::step`].

use vstd::prelude::*;
use vstd::seq_lib::lemma_seq_contains_after_push;

use crate::event::{opt_is, Event};
use crate::get_missing_events::{ids_in, read_ids};
use crate::ids::{is_server_name, server_name_chars, valid_server_name, ROOM_VERSION_ID};
use crate::json::{member_position_is, Json, JsonModel};
use crate::response::{
    error_response, Response, BAD_GATEWAY, INTERNAL_SERVER_ERROR, OK,
};
use crate::rooms::text_member;
use crate::send::{texts_json, texts_to_json};
use crate::text::{
    char_views, chars_of, cut, decimal, decimal_text, replace_all, replaced, same_text, split,
    split_on, split_once, text_of, texts,
};

verus! {

/// How long, in milliseconds, a join waits to be applied.
pub const JOIN_INGEST_TIMEOUT: u64 = 20_000;

pub const GATEWAY_TIMEOUT: u16 = 504;

/// The server that a pair of a query names, if it names one.
pub open spec fn named_server(pair: Seq<char>) -> Option<Seq<char>> {
    match cut(pair, '=') {
        Some((key, value)) if key == "server_name"@ => {
            let name = replaced(replaced(value, "%3A"@, ':'), "%3a"@, ':');
            if valid_server_name(name) {
                Some(name)
            } else {
                None
            }
        },
        _ => None,
    }
}

/// The servers that the pairs of a query name, in order.
pub open spec fn named_servers(pairs: Seq<Seq<char>>) -> Seq<Seq<char>>
    decreases pairs.len(),
{
    if pairs.len() == 0 {
        Seq::empty()
    } else {
        match named_server(pairs.last()) {
            Some(name) => named_servers(pairs.drop_last()).push(name),
            None => named_servers(pairs.drop_last()),
        }
    }
}

/// Parse repeated `?server_name=` query values into resident-server candidates. Tolerates a
/// percent-encoded port colon; other escapes are left as they are.
pub fn parse_server_names(raw: Option<&str>) -> (servers: Vec<String>)
    ensures
        texts(servers@) == match raw {
            Some(raw) => named_servers(split(raw@, '&')),
            None => Seq::empty(),
        },
{
    let mut servers: Vec<String> = Vec::new();
    assert(texts(servers@) =~= Seq::empty());
    let raw = match raw {
        Some(raw) => raw,
        None => return servers,
    };
    let pairs = split_on(&chars_of(raw), '&');
    let ghost all = char_views(pairs@);
    let mut i: usize = 0;
    assert(all.take(0) =~= Seq::empty());
    while i < pairs.len()
        invariant
            i <= pairs.len(),
            all == char_views(pairs@),
            texts(servers@) == named_servers(all.take(i as int)),
        decreases pairs.len() - i,
    {
        assert(all.take(i + 1).drop_last() =~= all.take(i as int));
        assert(all.take(i + 1).last() == pairs@[i as int]@);
        match split_once(&pairs[i], '=') {
            Some((key, value)) => {
                if same_text(text_of(&key).as_str(), "server_name") {
                    let name = text_of(&replace_all(&replace_all(&value, "%3A", ':'), "%3a", ':'));
                    if is_server_name(name.as_str()) {
                        let ghost before = servers@;
                        servers.push(name);
                        assert(texts(servers@) =~= texts(before).push(name@));
                    }
                }
            },
            None => {},
        }
        i += 1;
    }
    assert(all.take(i as int) =~= all);
    servers
}

/// A membership event that is yet to be named: everything but its hash.
#[derive(Debug, PartialEq, Eq)]
pub struct MembershipDraft {
    pub room_id: String,
    pub user_id: String,
    pub membership: String,
    /// The user's display name; none is shown where it is empty.
    pub display_name: String,
    pub prev_events: Vec<String>,
    pub prev_state_events: Vec<String>,
}

/// The content of a membership event.
pub open spec fn membership_content(membership: Seq<char>, display_name: Seq<char>) -> JsonModel {
    if display_name.len() == 0 {
        text_member("membership"@, membership)
    } else {
        JsonModel::Object(
            seq![
                ("membership"@, JsonModel::Str(membership)),
                ("displayname"@, JsonModel::Str(display_name)),
            ],
        )
    }
}

/// A membership event of a user about themselves.
pub open spec fn membership_event(
    room_id: Seq<char>,
    user_id: Seq<char>,
    membership: Seq<char>,
    display_name: Seq<char>,
    prev_events: Seq<Seq<char>>,
    prev_state_events: Seq<Seq<char>>,
    origin_server_ts: u64,
) -> JsonModel {
    JsonModel::Object(
        seq![
            ("type"@, JsonModel::Str("m.room.member"@)),
            ("room_id"@, JsonModel::Str(room_id)),
            ("sender"@, JsonModel::Str(user_id)),
            ("state_key"@, JsonModel::Str(user_id)),
            ("content"@, membership_content(membership, display_name)),
            ("prev_events"@, texts_json(prev_events)),
            ("prev_state_events"@, texts_json(prev_state_events)),
            ("origin_server_ts"@, JsonModel::Number(decimal(origin_server_ts as nat))),
        ],
    )
}

impl MembershipDraft {
    /// The event at a time.
    pub open spec fn json(self, origin_server_ts: u64) -> JsonModel {
        membership_event(
            self.room_id@,
            self.user_id@,
            self.membership@,
            self.display_name@,
            texts(self.prev_events@),
            texts(self.prev_state_events@),
            origin_server_ts,
        )
    }

    /// The event at a time, as JSON.
    pub fn to_json(&self, origin_server_ts: u64) -> (json: Json)
        ensures
            json.model() == self.json(origin_server_ts),
    {
        let content = Json::single("membership", Json::string(self.membership.as_str()));
        let content = if self.display_name.as_str().is_empty() {
            content
        } else {
            let content = content.and("displayname", Json::string(self.display_name.as_str()));
            assert(content.model()->Object_0 =~= membership_content(
                self.membership@,
                self.display_name@,
            )->Object_0);
            content
        };
        let json = Json::empty_object().and("type", Json::string("m.room.member")).and(
            "room_id",
            Json::string(self.room_id.as_str()),
        ).and("sender", Json::string(self.user_id.as_str())).and(
            "state_key",
            Json::string(self.user_id.as_str()),
        ).and("content", content).and("prev_events", texts_to_json(&self.prev_events)).and(
            "prev_state_events",
            texts_to_json(&self.prev_state_events),
        ).and("origin_server_ts", Json::Number(decimal_text(origin_server_ts)));
        assert(json.model()->Object_0 =~= self.json(origin_server_ts)->Object_0);
        json
    }
}

/// Completes a template that a resident server gave: everything is set here but the parents of the
/// event, which come from the template and must be event identifiers. Nothing else of the template
/// is echoed.
pub fn complete_membership_template(
    template: &Json,
    room_id: &str,
    user_id: &str,
    membership: &str,
    display_name: &str,
) -> (draft: Option<MembershipDraft>)
    ensures
        ({
            let parents = (
                ids_in(template.model().get("prev_events"@)),
                ids_in(template.model().get("prev_state_events"@)),
            );
            match draft {
                Some(draft) => {
                    &&& draft.room_id@ == room_id@
                    &&& draft.user_id@ == user_id@
                    &&& draft.membership@ == membership@
                    &&& draft.display_name@ == display_name@
                    &&& parents.0 == Some(texts(draft.prev_events@))
                    &&& parents.1 == Some(texts(draft.prev_state_events@))
                },
                None => parents.0 is None || parents.1 is None,
            }
        }),
        forall|ts: u64|
            #![trigger completed(template.model(), room_id@, user_id@, membership@, display_name@, ts)]
            completed(template.model(), room_id@, user_id@, membership@, display_name@, ts) == (
            match draft {
                Some(draft) => Some(draft.json(ts)),
                None => None,
            }),
{
    let prev_events = match read_ids(template.get("prev_events")) {
        Some(ids) => ids,
        None => return None,
    };
    let prev_state_events = match read_ids(template.get("prev_state_events")) {
        Some(ids) => ids,
        None => return None,
    };
    Some(
        MembershipDraft {
            room_id: room_id.to_owned(),
            user_id: user_id.to_owned(),
            membership: membership.to_owned(),
            display_name: display_name.to_owned(),
            prev_events,
            prev_state_events,
        },
    )
}

/// The event that a template completes to, at a time.
pub open spec fn completed(
    template: JsonModel,
    room_id: Seq<char>,
    user_id: Seq<char>,
    membership: Seq<char>,
    display_name: Seq<char>,
    origin_server_ts: u64,
) -> Option<JsonModel> {
    match (ids_in(template.get("prev_events"@)), ids_in(template.get("prev_state_events"@))) {
        (Some(prev_events), Some(prev_state_events)) => Some(
            membership_event(
                room_id,
                user_id,
                membership,
                display_name,
                prev_events,
                prev_state_events,
                origin_server_ts,
            ),
        ),
        _ => None,
    }
}

/// A hostile template is not echoed: of two templates with the same parents, one completes as the
/// other does, whatever else they hold.
pub proof fn template_is_not_echoed(
    a: JsonModel,
    b: JsonModel,
    room_id: Seq<char>,
    user_id: Seq<char>,
    membership: Seq<char>,
    display_name: Seq<char>,
    origin_server_ts: u64,
)
    requires
        a.get("prev_events"@) == b.get("prev_events"@),
        a.get("prev_state_events"@) == b.get("prev_state_events"@),
    ensures
        completed(a, room_id, user_id, membership, display_name, origin_server_ts) == completed(
            b,
            room_id,
            user_id,
            membership,
            display_name,
            origin_server_ts,
        ),
{
}

/// Whether a member event gives the membership `join`.
pub fn membership_is_join(event: &Event) -> (yes: bool)
    ensures
        yes == (event@.membership() == Some("join"@)),
{
    event.has_membership("join")
}

/// What a join is doing.
#[derive(Debug, PartialEq, Eq)]
pub enum JoinPhase {
    /// Asking a candidate for a template.
    AskTemplate,
    /// Building the event and sending it back.
    SendJoin { draft: MembershipDraft },
    /// Looking whether the room is known.
    CheckRoom { events: Vec<Event> },
    /// Registering the room from its create event.
    Register { events: Vec<Event>, create: usize },
    /// Staging all that came back.
    StageAll { events: Vec<Event> },
    /// Reading the user's member event.
    ReadMember,
    /// Waiting for something to be stored.
    AwaitStored,
    /// Answered.
    Answered { response: Response },
}

/// What a join needs done.
#[derive(Debug, PartialEq, Eq)]
pub enum JoinAction<'a> {
    /// Ask this server for a template, offering this version.
    AskTemplate {
        server: &'a String,
        room_id: &'a String,
        user_id: &'a String,
        ver: &'static str,
    },
    /// Build the event under this version and send it to this server.
    SendJoin { server: &'a String, draft: &'a MembershipDraft, room_version: &'static str },
    /// Look whether this room is known.
    CheckRoom(&'a String),
    /// Register the room of this create event.
    Register(&'a Event),
    /// Stage these events, as from this server, and tell the worker of the room.
    StageAll { server: &'a String, room_id: &'a String, events: &'a Vec<Event> },
    /// Read the member event of this user in this room.
    ReadMember { room_id: &'a String, user_id: &'a String },
    /// Wait until something is stored.
    AwaitStored,
    /// Answer.
    Answer(&'a Response),
}

/// What came of it.
#[derive(Debug, PartialEq, Eq)]
pub enum JoinReport {
    /// The candidate's template, and the version of the room.
    Template { template: Json, room_version: String },
    /// The event could not be built.
    NotBuilt,
    /// The resident took the join and answered with the room's state events, its recent timeline
    /// and its own copy of the join; nothing in place of what cannot be read.
    Accepted {
        state_dag: Vec<Option<Event>>,
        timeline: Vec<Option<Event>>,
        event: Option<Event>,
    },
    /// The candidate failed.
    Failed,
    /// Whether the room is known.
    Known(bool),
    /// Done.
    Done,
    /// The user's member event, and whether time is left.
    Member { event: Option<Event>, time_left: bool },
    /// Something was stored.
    Stored,
    /// The store is gone.
    StoreGone,
    /// Time is up.
    TimeUp,
    /// The store failed.
    Fault(String),
}

/// A join.
#[derive(Debug, PartialEq, Eq)]
pub struct FederatedJoin {
    pub room_id: String,
    pub user_id: String,
    pub display_name: String,
    pub candidates: Vec<String>,
    /// Which candidate is being tried.
    pub next: usize,
    pub phase: JoinPhase,
}

/// The events that could be read.
pub open spec fn read_events(items: Seq<Option<Event>>) -> Seq<Event>
    decreases items.len(),
{
    if items.len() == 0 {
        Seq::empty()
    } else {
        match items.last() {
            Some(event) => read_events(items.drop_last()).push(event),
            None => read_events(items.drop_last()),
        }
    }
}

/// All that a resident answered a join with, as far as it could be read: the state events, then the
/// timeline, then its copy of the join.
pub open spec fn gathered(
    state_dag: Seq<Option<Event>>,
    timeline: Seq<Option<Event>>,
    event: Option<Event>,
) -> Seq<Event> {
    read_events(state_dag) + read_events(timeline) + read_events(seq![event])
}

fn push_read(list: Vec<Event>, items: Vec<Option<Event>>) -> (longer: Vec<Event>)
    ensures
        longer@ == list@ + read_events(items@),
{
    let ghost before = list@;
    let ghost all = items@;
    let mut list = list;
    assert(all.take(0) =~= Seq::empty());
    assert(list@ =~= before + read_events(all.take(0)));
    for item in it: items.into_iter()
        invariant
            it.seq() == all,
            list@ == before + read_events(all.take(it.index())),
    {
        assert(all.take(it.index() + 1).drop_last() =~= all.take(it.index()));
        match item {
            Some(event) => {
                list.push(event);
                assert(list@ =~= before + read_events(all.take(it.index() + 1)));
            },
            None => {},
        }
    }
    assert(all.take(all.len() as int) =~= all);
    list
}

/// Gathers all that a resident answered a join with.
pub fn gather(
    state_dag: Vec<Option<Event>>,
    timeline: Vec<Option<Event>>,
    event: Option<Event>,
) -> (events: Vec<Event>)
    ensures
        events@ == gathered(state_dag@, timeline@, event),
{
    let events: Vec<Event> = Vec::new();
    let events = push_read(events, state_dag);
    let events = push_read(events, timeline);
    let mut own: Vec<Option<Event>> = Vec::new();
    own.push(event);
    assert(own@ =~= seq![event]);
    let events = push_read(events, own);
    assert(events@ =~= gathered(state_dag@, timeline@, event));
    events
}

/// The position of the create event among some events, from `from` on, or their number.
pub open spec fn create_position(events: Seq<Event>, from: int) -> int
    decreases events.len() - from,
{
    if from < 0 || from >= events.len() {
        events.len() as int
    } else if events[from]@.event_type == "m.room.create"@ && events[from]@.state_key == Some(""@) {
        from
    } else {
        create_position(events, from + 1)
    }
}

/// Where the create event stands.
pub fn find_create(events: &Vec<Event>) -> (at: usize)
    ensures
        at == create_position(events@, 0),
        at <= events.len(),
{
    let mut i: usize = 0;
    while i < events.len()
        invariant
            i <= events.len(),
            create_position(events@, 0) == create_position(events@, i as int),
        decreases events.len() - i,
    {
        if same_text(events[i].event_type.as_str(), "m.room.create") && opt_is(
            &events[i].state_key,
            "",
        ) {
            return i;
        }
        i += 1;
    }
    i
}

/// The events of a room among some events.
pub open spec fn of_room(events: Seq<Event>, room_id: Seq<char>) -> Seq<Event>
    decreases events.len(),
{
    if events.len() == 0 {
        Seq::empty()
    } else {
        let before = of_room(events.drop_last(), room_id);
        if events.last()@.room_id == room_id {
            before.push(events.last())
        } else {
            before
        }
    }
}

/// Keeps the events of a room, in their order.
pub fn keep_room(events: Vec<Event>, room_id: &str) -> (kept: Vec<Event>)
    ensures
        kept@ == of_room(events@, room_id@),
{
    let ghost all = events@;
    let mut kept: Vec<Event> = Vec::new();
    for event in it: events.into_iter()
        invariant
            it.seq() == all,
            kept@ == of_room(all.take(it.index()), room_id@),
    {
        assert(all.take(it.index() + 1).drop_last() =~= all.take(it.index()));
        if same_text(event.room_id.as_str(), room_id) {
            kept.push(event);
        }
    }
    assert(all.take(all.len() as int) =~= all);
    kept
}

impl FederatedJoin {
    /// A candidate that is tried exists, and so does the create event that is registered.
    pub open spec fn wf(self) -> bool {
        &&& self.phase matches JoinPhase::Register { events, create } ==> create < events@.len()
        &&& match self.phase {
            JoinPhase::AskTemplate | JoinPhase::SendJoin { .. } | JoinPhase::CheckRoom { .. } | JoinPhase::Register {
                ..
            } | JoinPhase::StageAll { .. } => self.next < self.candidates@.len(),
            _ => true,
        }
    }

    /// Whether two states are of the same join.
    pub open spec fn same_join(self, other: FederatedJoin) -> bool {
        &&& self.room_id == other.room_id
        &&& self.user_id == other.user_id
        &&& self.display_name == other.display_name
        &&& self.candidates == other.candidates
    }

    /// The candidate failed for a reason: the next one is tried, and after the last the reason is
    /// the answer.
    pub open spec fn fails_over(self, after: FederatedJoin, reason: Seq<char>) -> bool {
        if self.next + 1 < self.candidates@.len() {
            after.next == self.next + 1 && after.phase is AskTemplate
        } else {
            after.next == self.next && (after.phase matches JoinPhase::Answered { response }
                && response.is_error(BAD_GATEWAY, "M_UNKNOWN"@, reason))
        }
    }

    /// The join is answered with an error.
    pub open spec fn errs(self, after: FederatedJoin, status: u16, error: Seq<char>) -> bool {
        after.next == self.next && (after.phase matches JoinPhase::Answered { response }
            && response.is_error(status, "M_UNKNOWN"@, error))
    }

    /// How a report takes a join on.
    pub open spec fn follows(
        before: FederatedJoin,
        report: JoinReport,
        after: FederatedJoin,
    ) -> bool {
        let timed_out = "timed out applying room state; the join is still being processed"@;
        &&& before.same_join(after)
        &&& match (before.phase, report) {
            (JoinPhase::AskTemplate, JoinReport::Failed) => before.fails_over(
                after,
                "make_join request failed"@,
            ),
            (JoinPhase::AskTemplate, JoinReport::Template { template, room_version }) => if room_version@
                != ROOM_VERSION_ID@ {
                before.fails_over(after, "resident room version is unsupported"@)
            } else {
                match (
                    ids_in(template.model().get("prev_events"@)),
                    ids_in(template.model().get("prev_state_events"@)),
                ) {
                    (Some(prev_events), Some(prev_state_events)) => {
                        &&& after.next == before.next
                        &&& after.phase matches JoinPhase::SendJoin { draft }
                        &&& draft.room_id@ == before.room_id@
                        &&& draft.user_id@ == before.user_id@
                        &&& draft.membership@ == "join"@
                        &&& draft.display_name@ == before.display_name@
                        &&& texts(draft.prev_events@) == prev_events
                        &&& texts(draft.prev_state_events@) == prev_state_events
                    },
                    _ => before.fails_over(after, "could not complete the join template"@),
                }
            },
            (JoinPhase::SendJoin { .. }, JoinReport::NotBuilt) => before.fails_over(
                after,
                "could not complete the join template"@,
            ),
            (JoinPhase::SendJoin { .. }, JoinReport::Failed) => before.fails_over(
                after,
                "send_join request failed"@,
            ),
            (
                JoinPhase::SendJoin { .. },
                JoinReport::Accepted { state_dag, timeline, event },
            ) => after.next == before.next && (after.phase matches JoinPhase::CheckRoom { events }
                && events@ == gathered(state_dag@, timeline@, event)),
            (JoinPhase::CheckRoom { .. }, JoinReport::Fault(_)) => before.fails_over(
                after,
                "storage error checking room"@,
            ),
            (JoinPhase::CheckRoom { events }, JoinReport::Known(true)) => after.next == before.next
                && (after.phase matches JoinPhase::StageAll { events: staged } && staged@
                == of_room(events@, before.room_id@)),
            (JoinPhase::CheckRoom { events }, JoinReport::Known(false)) => {
                let at = create_position(events@, 0);
                if at >= events@.len() {
                    before.fails_over(after, "state DAG is missing the create event"@)
                } else if events@[at]@.room_id != before.room_id@ {
                    before.fails_over(after, "create event is for a different room"@)
                } else {
                    after.next == before.next && (after.phase matches JoinPhase::Register {
                        events: kept,
                        create,
                    } && kept == events && create == at)
                }
            },
            (JoinPhase::Register { events, .. }, JoinReport::Done) => after.next == before.next && (
            after.phase matches JoinPhase::StageAll { events: staged } && staged@ == of_room(
                events@,
                before.room_id@,
            )),
            (JoinPhase::Register { .. }, JoinReport::Fault(_)) => before.fails_over(
                after,
                "could not register the room"@,
            ),
            (JoinPhase::StageAll { .. }, JoinReport::Done) => after.next == before.next
                && after.phase is ReadMember,
            (JoinPhase::StageAll { .. }, JoinReport::Fault(_)) => before.fails_over(
                after,
                "could not stage room state"@,
            ),
            (JoinPhase::ReadMember, JoinReport::Member { event, time_left }) => if event is Some
                && event->0@.membership() == Some("join"@) {
                after.next == before.next && (after.phase matches JoinPhase::Answered { response }
                    && response.is(OK, text_member("room_id"@, before.room_id@)))
            } else if time_left {
                after.next == before.next && after.phase is AwaitStored
            } else {
                before.errs(after, GATEWAY_TIMEOUT, timed_out)
            },
            (JoinPhase::ReadMember, JoinReport::Fault(error)) => before.errs(
                after,
                INTERNAL_SERVER_ERROR,
                error@,
            ),
            (JoinPhase::AwaitStored, JoinReport::Stored) => after.next == before.next
                && after.phase is ReadMember,
            (JoinPhase::AwaitStored, JoinReport::StoreGone) => before.errs(
                after,
                INTERNAL_SERVER_ERROR,
                "store closed while joining"@,
            ),
            (JoinPhase::AwaitStored, JoinReport::TimeUp) => before.errs(
                after,
                GATEWAY_TIMEOUT,
                timed_out,
            ),
            _ => before == after,
        }
    }

    /// Begins a join; without candidates it is answered at once.
    pub fn begin(
        room_id: String,
        user_id: String,
        display_name: String,
        candidates: Vec<String>,
    ) -> (join: FederatedJoin)
        ensures
            join.wf(),
            join.room_id == room_id,
            join.user_id == user_id,
            join.display_name == display_name,
            join.candidates == candidates,
            join.next == 0,
            if candidates@.len() > 0 {
                join.phase is AskTemplate
            } else {
                join.phase matches JoinPhase::Answered { response } && response.is_error(
                    BAD_GATEWAY,
                    "M_UNKNOWN"@,
                    "no resident server could be reached"@,
                )
            },
    {
        let phase = if candidates.len() > 0 {
            JoinPhase::AskTemplate
        } else {
            JoinPhase::Answered {
                response: error_response(
                    BAD_GATEWAY,
                    "M_UNKNOWN",
                    "no resident server could be reached",
                ),
            }
        };
        FederatedJoin { room_id, user_id, display_name, candidates, next: 0, phase }
    }

    /// What the join needs done now. Whatever goes to a resident goes to the candidate that is
    /// being tried.
    pub fn action(&self) -> (action: JoinAction<'_>)
        requires
            self.wf(),
        ensures
            action == match self.phase {
                JoinPhase::AskTemplate => JoinAction::AskTemplate {
                    server: &self.candidates@[self.next as int],
                    room_id: &self.room_id,
                    user_id: &self.user_id,
                    ver: ROOM_VERSION_ID,
                },
                JoinPhase::SendJoin { draft } => JoinAction::SendJoin {
                    server: &self.candidates@[self.next as int],
                    draft: &draft,
                    room_version: ROOM_VERSION_ID,
                },
                JoinPhase::CheckRoom { .. } => JoinAction::CheckRoom(&self.room_id),
                JoinPhase::Register { events, create } => JoinAction::Register(
                    &events@[create as int],
                ),
                JoinPhase::StageAll { events } => JoinAction::StageAll {
                    server: &self.candidates@[self.next as int],
                    room_id: &self.room_id,
                    events: &events,
                },
                JoinPhase::ReadMember => JoinAction::ReadMember {
                    room_id: &self.room_id,
                    user_id: &self.user_id,
                },
                JoinPhase::AwaitStored => JoinAction::AwaitStored,
                JoinPhase::Answered { response } => JoinAction::Answer(&response),
            },
    {
        match &self.phase {
            JoinPhase::AskTemplate => JoinAction::AskTemplate {
                server: &self.candidates[self.next],
                room_id: &self.room_id,
                user_id: &self.user_id,
                ver: ROOM_VERSION_ID,
            },
            JoinPhase::SendJoin { draft } => JoinAction::SendJoin {
                server: &self.candidates[self.next],
                draft,
                room_version: ROOM_VERSION_ID,
            },
            JoinPhase::CheckRoom { .. } => JoinAction::CheckRoom(&self.room_id),
            JoinPhase::Register { events, create } => JoinAction::Register(&events[*create]),
            JoinPhase::StageAll { events } => JoinAction::StageAll {
                server: &self.candidates[self.next],
                room_id: &self.room_id,
                events,
            },
            JoinPhase::ReadMember => JoinAction::ReadMember {
                room_id: &self.room_id,
                user_id: &self.user_id,
            },
            JoinPhase::AwaitStored => JoinAction::AwaitStored,
            JoinPhase::Answered { response } => JoinAction::Answer(response),
        }
    }

    fn turn(self, phase: JoinPhase) -> (after: FederatedJoin)
        ensures
            self.same_join(after),
            after.next == self.next,
            after.phase == phase,
    {
        FederatedJoin {
            room_id: self.room_id,
            user_id: self.user_id,
            display_name: self.display_name,
            candidates: self.candidates,
            next: self.next,
            phase,
        }
    }

    fn fail_over(self, reason: &str) -> (after: FederatedJoin)
        requires
            self.next < self.candidates@.len(),
        ensures
            after.wf(),
            self.same_join(after),
            self.fails_over(after, reason@),
    {
        let count = self.candidates.len();
        let next = self.next + 1;
        if next < count {
            FederatedJoin {
                room_id: self.room_id,
                user_id: self.user_id,
                display_name: self.display_name,
                candidates: self.candidates,
                next,
                phase: JoinPhase::AskTemplate,
            }
        } else {
            let response = error_response(BAD_GATEWAY, "M_UNKNOWN", reason);
            self.turn(JoinPhase::Answered { response })
        }
    }

    fn err(self, status: u16, error: &str) -> (after: FederatedJoin)
        ensures
            after.wf(),
            self.same_join(after),
            self.errs(after, status, error@),
    {
        let response = error_response(status, "M_UNKNOWN", error);
        self.turn(JoinPhase::Answered { response })
    }

    /// Takes the join on from a report. A report that answers nothing that was asked changes
    /// nothing.
    pub fn step(self, report: JoinReport) -> (after: FederatedJoin)
        requires
            self.wf(),
        ensures
            after.wf(),
            FederatedJoin::follows(self, report, after),
    {
        let timed_out = "timed out applying room state; the join is still being processed";
        let FederatedJoin { room_id, user_id, display_name, candidates, next, phase } = self;
        // The join without its phase; the phase is set below.
        let join = FederatedJoin {
            room_id,
            user_id,
            display_name,
            candidates,
            next,
            phase: JoinPhase::AwaitStored,
        };
        match (phase, report) {
            (JoinPhase::AskTemplate, JoinReport::Failed) => join.fail_over(
                "make_join request failed",
            ),
            (JoinPhase::AskTemplate, JoinReport::Template { template, room_version }) => {
                if !same_text(room_version.as_str(), ROOM_VERSION_ID) {
                    return join.fail_over("resident room version is unsupported");
                }
                match complete_membership_template(
                    &template,
                    join.room_id.as_str(),
                    join.user_id.as_str(),
                    "join",
                    join.display_name.as_str(),
                ) {
                    Some(draft) => join.turn(JoinPhase::SendJoin { draft }),
                    None => join.fail_over("could not complete the join template"),
                }
            },
            (JoinPhase::SendJoin { .. }, JoinReport::NotBuilt) => join.fail_over(
                "could not complete the join template",
            ),
            (JoinPhase::SendJoin { .. }, JoinReport::Failed) => join.fail_over(
                "send_join request failed",
            ),
            (
                JoinPhase::SendJoin { .. },
                JoinReport::Accepted { state_dag, timeline, event },
            ) => {
                let events = gather(state_dag, timeline, event);
                join.turn(JoinPhase::CheckRoom { events })
            },
            (JoinPhase::CheckRoom { .. }, JoinReport::Fault(_)) => join.fail_over(
                "storage error checking room",
            ),
            (JoinPhase::CheckRoom { events }, JoinReport::Known(known)) => {
                if known {
                    let events = keep_room(events, join.room_id.as_str());
                    return join.turn(JoinPhase::StageAll { events });
                }
                let at = find_create(&events);
                if at >= events.len() {
                    join.fail_over("state DAG is missing the create event")
                } else if !same_text(events[at].room_id.as_str(), join.room_id.as_str()) {
                    join.fail_over("create event is for a different room")
                } else {
                    join.turn(JoinPhase::Register { events, create: at })
                }
            },
            (JoinPhase::Register { events, .. }, JoinReport::Done) => {
                let events = keep_room(events, join.room_id.as_str());
                join.turn(JoinPhase::StageAll { events })
            },
            (JoinPhase::Register { .. }, JoinReport::Fault(_)) => join.fail_over(
                "could not register the room",
            ),
            (JoinPhase::StageAll { .. }, JoinReport::Done) => join.turn(JoinPhase::ReadMember),
            (JoinPhase::StageAll { .. }, JoinReport::Fault(_)) => join.fail_over(
                "could not stage room state",
            ),
            (JoinPhase::ReadMember, JoinReport::Member { event, time_left }) => {
                let joined = match &event {
                    Some(event) => membership_is_join(event),
                    None => false,
                };
                if joined {
                    let response = Response::ok(
                        Json::single("room_id", Json::string(join.room_id.as_str())),
                    );
                    join.turn(JoinPhase::Answered { response })
                } else if time_left {
                    join.turn(JoinPhase::AwaitStored)
                } else {
                    join.err(GATEWAY_TIMEOUT, timed_out)
                }
            },
            (JoinPhase::ReadMember, JoinReport::Fault(error)) => join.err(
                INTERNAL_SERVER_ERROR,
                error.as_str(),
            ),
            (JoinPhase::AwaitStored, JoinReport::Stored) => join.turn(JoinPhase::ReadMember),
            (JoinPhase::AwaitStored, JoinReport::StoreGone) => join.err(
                INTERNAL_SERVER_ERROR,
                "store closed while joining",
            ),
            (JoinPhase::AwaitStored, JoinReport::TimeUp) => join.err(GATEWAY_TIMEOUT, timed_out),
            (phase, _) => join.turn(phase),
        }
    }
}

/// What is staged of an answer is what it holds of the room that is joined: events of another room
/// are left out.
pub proof fn kept_are_of_room(events: Seq<Event>, room_id: Seq<char>, event: Event)
    ensures
        of_room(events, room_id).contains(event) == (events.contains(event) && event@.room_id
            == room_id),
    decreases events.len(),
{
    if events.len() > 0 {
        let fewer = events.drop_last();
        let last = events.last();
        kept_are_of_room(fewer, room_id, event);
        assert(events =~= fewer.push(last));
        lemma_seq_contains_after_push(fewer, last, event);
        lemma_seq_contains_after_push(of_room(fewer, room_id), last, event);
    }
}

/// Whatever is staged is of the room that is joined.
pub proof fn only_the_room_is_staged(
    before: FederatedJoin,
    report: JoinReport,
    after: FederatedJoin,
    event: Event,
)
    requires
        FederatedJoin::follows(before, report, after),
        !(before.phase is StageAll),
        after.phase matches JoinPhase::StageAll { events } && events@.contains(event),
    ensures
        event@.room_id == after.room_id@,
{
    match before.phase {
        JoinPhase::CheckRoom { events } | JoinPhase::Register { events, .. } => {
            kept_are_of_room(events@, before.room_id@, event);
        },
        _ => {},
    }
}

/// A join is answered with the room only once the user's own membership there is `join`.
pub proof fn joined_only_when_member(
    before: FederatedJoin,
    report: JoinReport,
    after: FederatedJoin,
)
    requires
        FederatedJoin::follows(before, report, after),
        !(before.phase is Answered),
        after.phase matches JoinPhase::Answered { response } && response.status == OK,
    ensures
        before.phase is ReadMember,
        report matches JoinReport::Member { event, .. } && event is Some && event->0@.membership()
            == Some("join"@),
{
}

/// The candidates are tried in order, and none twice: a step stays with one, or goes on to the next.
pub proof fn candidates_are_tried_in_order(
    before: FederatedJoin,
    report: JoinReport,
    after: FederatedJoin,
)
    requires
        FederatedJoin::follows(before, report, after),
    ensures
        after.candidates == before.candidates,
        after.next == before.next || after.next == before.next + 1,
        after.next != before.next ==> after.next < after.candidates@.len() && after.phase
            is AskTemplate,
{
}

/// The room is registered only from a create event of that very room.
pub proof fn registered_from_its_create(
    before: FederatedJoin,
    report: JoinReport,
    after: FederatedJoin,
)
    requires
        FederatedJoin::follows(before, report, after),
        !(before.phase is Register),
        after.phase is Register,
    ensures
        after.phase matches JoinPhase::Register { events, create } && events@[create as int]@.room_id
            == after.room_id@,
{
}

/// A step of a join does what the law of its machine says.
pub proof fn join_steps_by_the_law(before: FederatedJoin, report: JoinReport, after: FederatedJoin)
    requires
        call_ensures(FederatedJoin::step, (before, report), after),
    ensures
        FederatedJoin::follows(before, report, after),
        after.wf(),
{
}

/// A join asks the first of its candidates first; without any it is answered 502 at once.
pub proof fn join_begins_with_the_first(
    room_id: String,
    user_id: String,
    display_name: String,
    candidates: Vec<String>,
    join: FederatedJoin,
)
    requires
        call_ensures(FederatedJoin::begin, (room_id, user_id, display_name, candidates), join),
    ensures
        join.room_id == room_id && join.user_id == user_id && join.display_name == display_name,
        join.candidates == candidates && join.next == 0,
        candidates@.len() > 0 ==> join.phase is AskTemplate,
        candidates@.len() == 0 ==> (join.phase matches JoinPhase::Answered { response }
            && response.status == 502),
{
}

/// Whether a report says that the candidate that is being tried failed: it did not answer, or not
/// with something that can be used, or what it answered could not be taken in.
pub open spec fn candidate_failed(join: FederatedJoin, report: JoinReport) -> bool {
    match (join.phase, report) {
        (JoinPhase::AskTemplate, JoinReport::Failed) => true,
        (JoinPhase::AskTemplate, JoinReport::Template { template, room_version }) => room_version@
            != "org.matrix.msc4242.12"@ || ids_in(template.model().get("prev_events"@)) is None
            || ids_in(template.model().get("prev_state_events"@)) is None,
        (JoinPhase::SendJoin { .. }, JoinReport::Failed) => true,
        (JoinPhase::SendJoin { .. }, JoinReport::NotBuilt) => true,
        (JoinPhase::CheckRoom { .. }, JoinReport::Fault(_)) => true,
        (JoinPhase::CheckRoom { events }, JoinReport::Known(false)) => !(exists|i: int|
            first_create(events@, i) && events@[i]@.room_id == join.room_id@),
        (JoinPhase::Register { .. }, JoinReport::Fault(_)) => true,
        (JoinPhase::StageAll { .. }, JoinReport::Fault(_)) => true,
        _ => false,
    }
}

/// Whether the first create event of a list is the one at `i`.
pub open spec fn first_create(events: Seq<Event>, i: int) -> bool {
    &&& 0 <= i < events.len()
    &&& events[i]@.event_type == "m.room.create"@
    &&& events[i]@.state_key == Some(""@)
    &&& forall|k: int|
        0 <= k < i ==> !((#[trigger] events[k])@.event_type == "m.room.create"@
            && events[k]@.state_key == Some(""@))
}

proof fn create_position_is_first(events: Seq<Event>, from: int)
    requires
        0 <= from <= events.len(),
    ensures
        from <= create_position(events, from) <= events.len(),
        create_position(events, from) < events.len() ==> events[create_position(
            events,
            from,
        )]@.event_type == "m.room.create"@ && events[create_position(events, from)]@.state_key
            == Some(""@),
        forall|k: int|
            from <= k < create_position(events, from) ==> !((#[trigger] events[k])@.event_type
                == "m.room.create"@ && events[k]@.state_key == Some(""@)),
    decreases events.len() - from,
{
    if from < events.len() && !(events[from]@.event_type == "m.room.create"@
        && events[from]@.state_key == Some(""@)) {
        create_position_is_first(events, from + 1);
    }
}

proof fn first_create_is_found(events: Seq<Event>, i: int)
    requires
        first_create(events, i),
    ensures
        create_position(events, 0) == i,
{
    create_position_is_first(events, 0);
    let at = create_position(events, 0);
    if at < i {
        assert(events[at]@.event_type == "m.room.create"@);
    }
}

/// Every candidate gets its chance: one that fails, in whatever way and at whatever point, is
/// followed by the next, which is asked from the start; a join is given up as unreachable, with
/// 502, only after the last.
pub proof fn next_candidate_is_tried(before: FederatedJoin, report: JoinReport, after: FederatedJoin)
    requires
        before.wf(),
        FederatedJoin::follows(before, report, after),
    ensures
        candidate_failed(before, report) && before.next + 1 < before.candidates@.len() ==> after.phase
            is AskTemplate && after.next == before.next + 1 && after.candidates
            == before.candidates,
        candidate_failed(before, report) && before.next + 1 >= before.candidates@.len() ==> (
        after.phase matches JoinPhase::Answered { response } && response.status == 502),
        after.next != before.next ==> candidate_failed(before, report),
        !(before.phase is Answered) && (after.phase matches JoinPhase::Answered { response }
            && response.status == 502) ==> candidate_failed(before, report) && before.next + 1
            == before.candidates@.len(),
{
    reveal_strlit("org.matrix.msc4242.12");
    if let (JoinPhase::CheckRoom { events }, JoinReport::Known(false)) = (before.phase, report) {
        create_position_is_first(events@, 0);
        let at = create_position(events@, 0);
        if at < events@.len() && events@[at]@.room_id == before.room_id@ {
            assert(first_create(events@, at));
        }
        if exists|i: int| first_create(events@, i) && events@[i]@.room_id == before.room_id@ {
            let i = choose|i: int|
                first_create(events@, i) && events@[i]@.room_id == before.room_id@;
            first_create_is_found(events@, i);
        }
    }
}

/// A candidate that does its part is stayed with: the join goes from its template to the event, on
/// to what it answers, to the room, and to the wait for the member event.
pub proof fn a_good_candidate_is_kept(before: FederatedJoin, report: JoinReport, after: FederatedJoin)
    requires
        before.wf(),
        FederatedJoin::follows(before, report, after),
        !candidate_failed(before, report),
    ensures
        after.next == before.next,
        before.phase is AskTemplate && report is Template ==> after.phase is SendJoin,
        before.phase is SendJoin && report is Accepted ==> after.phase is CheckRoom,
        before.phase is CheckRoom && report == JoinReport::Known(true) ==> after.phase is StageAll,
        before.phase is CheckRoom && report == JoinReport::Known(false) ==> after.phase is Register,
        before.phase is Register && report is Done ==> after.phase is StageAll,
        before.phase is StageAll && report is Done ==> after.phase is ReadMember,
{
    next_candidate_is_tried(before, report, after);
    if let (JoinPhase::CheckRoom { events }, JoinReport::Known(false)) = (before.phase, report) {
        let i = choose|i: int| first_create(events@, i) && events@[i]@.room_id == before.room_id@;
        first_create_is_found(events@, i);
    }
}

/// The event that joins is the user's own: about the room that is joined, by and of the user who
/// joins it, with the name that the user shows, on the parents that the candidate gave.
pub proof fn the_users_own_join_is_sent(
    before: FederatedJoin,
    report: JoinReport,
    after: FederatedJoin,
)
    requires
        FederatedJoin::follows(before, report, after),
        !(before.phase is SendJoin),
        after.phase is SendJoin,
    ensures
        after.phase matches JoinPhase::SendJoin { draft } && draft.room_id@ == before.room_id@
            && draft.user_id@ == before.user_id@ && draft.membership@ == "join"@
            && draft.display_name@ == before.display_name@,
        report matches JoinReport::Template { template, room_version } && ids_in(
            template.model().get("prev_events"@),
        ) == Some(texts(after.phase->SendJoin_draft.prev_events@)) && ids_in(
            template.model().get("prev_state_events"@),
        ) == Some(texts(after.phase->SendJoin_draft.prev_state_events@)),
{
}

/// What a membership event says of itself, as the resident reads it.
pub proof fn membership_event_is_read(draft: MembershipDraft, origin_server_ts: u64)
    ensures
        draft.json(origin_server_ts).text_at("type"@) == Some("m.room.member"@),
        draft.json(origin_server_ts).text_at("room_id"@) == Some(draft.room_id@),
        draft.json(origin_server_ts).text_at("sender"@) == Some(draft.user_id@),
        draft.json(origin_server_ts).text_at("state_key"@) == Some(draft.user_id@),
        draft.json(origin_server_ts).get("prev_events"@) == Some(
            texts_json(texts(draft.prev_events@)),
        ),
        draft.json(origin_server_ts).get("prev_state_events"@) == Some(
            texts_json(texts(draft.prev_state_events@)),
        ),
        draft.json(origin_server_ts).get("content"@) is Some,
        draft.json(origin_server_ts).get("content"@)->0.text_at("membership"@) == Some(
            draft.membership@,
        ),
        draft.json(origin_server_ts).get("content"@)->0.text_at("displayname"@)
            == if draft.display_name@.len() == 0 {
            None
        } else {
            Some(draft.display_name@)
        },
        draft.json(origin_server_ts).get("origin_server_ts"@) == Some(
            JsonModel::Number(decimal(origin_server_ts as nat)),
        ),
{
    reveal_strlit("type");
    reveal_strlit("room_id");
    reveal_strlit("sender");
    reveal_strlit("state_key");
    reveal_strlit("content");
    reveal_strlit("prev_events");
    reveal_strlit("prev_state_events");
    reveal_strlit("origin_server_ts");
    reveal_strlit("membership");
    reveal_strlit("displayname");
    let members = draft.json(origin_server_ts)->Object_0;
    assert(members[0].0.len() == 4);
    assert(members[1].0[0] == 'r');
    assert(members[2].0.len() == 6);
    assert(members[3].0.len() == 9);
    assert(members[4].0[0] == 'c');
    assert(members[5].0.len() == 11);
    assert(members[6].0.len() == 17);
    assert(members[7].0.len() == 16);
    member_position_is(members, "type"@, 0, 0);
    member_position_is(members, "room_id"@, 0, 1);
    member_position_is(members, "sender"@, 0, 2);
    member_position_is(members, "state_key"@, 0, 3);
    member_position_is(members, "content"@, 0, 4);
    member_position_is(members, "prev_events"@, 0, 5);
    member_position_is(members, "prev_state_events"@, 0, 6);
    member_position_is(members, "origin_server_ts"@, 0, 7);
    let content = members[4].1->Object_0;
    member_position_is(content, "membership"@, 0, 0);
    assert(content[0].0[0] == 'm');
    assert("displayname"@[0] == 'd');
    member_position_is(content, "displayname"@, 0, 1);
}

proof fn read_events_contains(items: Seq<Option<Event>>, event: Event)
    ensures
        read_events(items).contains(event) == items.contains(Some(event)),
    decreases items.len(),
{
    if items.len() > 0 {
        let fewer = items.drop_last();
        read_events_contains(fewer, event);
        assert(items =~= fewer.push(items.last()));
        lemma_seq_contains_after_push(fewer, items.last(), Some(event));
        if let Some(last) = items.last() {
            lemma_seq_contains_after_push(read_events(fewer), last, event);
        }
    }
}

/// Nothing that a candidate answers is lost: every event of its answer that can be read is kept,
/// whichever part of the answer it stands in, and nothing else is.
pub proof fn all_that_was_read_is_kept(
    before: FederatedJoin,
    report: JoinReport,
    after: FederatedJoin,
    event: Event,
)
    requires
        FederatedJoin::follows(before, report, after),
        before.phase is SendJoin,
        report is Accepted,
    ensures
        after.phase is CheckRoom,
        after.phase->CheckRoom_events@.contains(event) <==> report->Accepted_state_dag@.contains(
            Some(event),
        ) || report->Accepted_timeline@.contains(Some(event)) || report->Accepted_event == Some(
            event,
        ),
{
    let state = report->Accepted_state_dag@;
    let timeline = report->Accepted_timeline@;
    let own = seq![report->Accepted_event];
    read_events_contains(state, event);
    read_events_contains(timeline, event);
    read_events_contains(own, event);
    assert(own.contains(Some(event)) == (report->Accepted_event == Some(event))) by {
        assert(own[0] == report->Accepted_event);
    }
    let a = read_events(state);
    let b = read_events(timeline);
    let c = read_events(own);
    let all = a + b + c;
    if a.contains(event) {
        let i = choose|i: int| 0 <= i < a.len() && a[i] == event;
        assert(all[i] == event);
    }
    if b.contains(event) {
        let i = choose|i: int| 0 <= i < b.len() && b[i] == event;
        assert(all[a.len() + i] == event);
    }
    if c.contains(event) {
        let i = choose|i: int| 0 <= i < c.len() && c[i] == event;
        assert(all[a.len() + b.len() + i] == event);
    }
    if all.contains(event) {
        let i = choose|i: int| 0 <= i < all.len() && all[i] == event;
        if i < a.len() {
            assert(a[i] == event);
        } else if i < a.len() + b.len() {
            assert(b[i - a.len()] == event);
        } else {
            assert(c[i - a.len() - b.len()] == event);
        }
    }
}

proof fn read_events_all(items: Seq<Option<Event>>)
    requires
        forall|i: int| 0 <= i < items.len() ==> (#[trigger] items[i]) is Some,
    ensures
        read_events(items).len() == items.len(),
        forall|i: int| 0 <= i < items.len() ==> #[trigger] read_events(items)[i] == items[i]->0,
    decreases items.len(),
{
    if items.len() > 0 {
        let fewer = items.drop_last();
        assert forall|i: int| 0 <= i < fewer.len() implies (#[trigger] fewer[i]) is Some by {
            assert(items[i] is Some);
        }
        read_events_all(fewer);
        assert(items[items.len() - 1] is Some);
        assert forall|i: int| 0 <= i < items.len() implies #[trigger] read_events(items)[i]
            == items[i]->0 by {
            if i < fewer.len() {
                assert(read_events(fewer)[i] == fewer[i]->0);
            }
        }
    }
}

/// What a candidate answers keeps its order: the state events first, then the timeline, then the
/// join itself.
pub proof fn gathered_in_order(
    state_dag: Seq<Option<Event>>,
    timeline: Seq<Option<Event>>,
    event: Event,
    i: int,
)
    requires
        forall|i: int| 0 <= i < state_dag.len() ==> (#[trigger] state_dag[i]) is Some,
        forall|i: int| 0 <= i < timeline.len() ==> (#[trigger] timeline[i]) is Some,
        0 <= i <= state_dag.len() + timeline.len(),
    ensures
        gathered(state_dag, timeline, Some(event)).len() == state_dag.len() + timeline.len() + 1,
        gathered(state_dag, timeline, Some(event))[i] == if i < state_dag.len() {
            state_dag[i]->0
        } else if i < state_dag.len() + timeline.len() {
            timeline[i - state_dag.len()]->0
        } else {
            event
        },
{
    read_events_all(state_dag);
    read_events_all(timeline);
    read_events_all(seq![Some(event)]);
    assert(seq![Some(event)][0] == Some(event));
    if i < state_dag.len() {
        assert(read_events(state_dag)[i] == state_dag[i]->0);
    } else if i < state_dag.len() + timeline.len() {
        assert(read_events(timeline)[i - state_dag.len()] == timeline[i - state_dag.len()]->0);
    } else {
        assert(read_events(seq![Some(event)])[0] == event);
    }
}

/// The events that a join has kept of an answer.
pub open spec fn kept_events(phase: JoinPhase) -> Seq<Event> {
    match phase {
        JoinPhase::CheckRoom { events } => events@,
        JoinPhase::Register { events, .. } => events@,
        _ => Seq::empty(),
    }
}

/// The whole of the room is staged: each event of the room that was kept, and none of another. Where
/// all are of the room, they are staged in their order.
pub proof fn whole_room_is_staged(
    before: FederatedJoin,
    report: JoinReport,
    after: FederatedJoin,
    event: Event,
)
    requires
        FederatedJoin::follows(before, report, after),
        before.phase is CheckRoom || before.phase is Register,
        after.phase is StageAll,
    ensures
        after.phase->StageAll_events@.contains(event) <==> kept_events(before.phase).contains(event)
            && event@.room_id == before.room_id@,
        (forall|i: int|
            0 <= i < kept_events(before.phase).len() ==> (#[trigger] kept_events(
                before.phase,
            )[i])@.room_id == before.room_id@) ==> after.phase->StageAll_events@ == kept_events(
            before.phase,
        ),
{
    let kept = kept_events(before.phase);
    kept_are_of_room(kept, before.room_id@, event);
    if forall|i: int|
        0 <= i < kept.len() ==> (#[trigger] kept_events(before.phase)[i])@.room_id
            == before.room_id@ {
        assert forall|i: int| 0 <= i < kept.len() implies (#[trigger] kept[i])@.room_id
            == before.room_id@ by {
            assert(kept_events(before.phase)[i]@.room_id == before.room_id@);
        }
        all_of_room_are_kept(kept, before.room_id@);
    }
}

proof fn all_of_room_are_kept(events: Seq<Event>, room_id: Seq<char>)
    requires
        forall|i: int| 0 <= i < events.len() ==> (#[trigger] events[i])@.room_id == room_id,
    ensures
        of_room(events, room_id) == events,
    decreases events.len(),
{
    if events.len() > 0 {
        let fewer = events.drop_last();
        assert forall|i: int| 0 <= i < fewer.len() implies (#[trigger] fewer[i])@.room_id
            == room_id by {
            assert(events[i]@.room_id == room_id);
        }
        all_of_room_are_kept(fewer, room_id);
        assert(events[events.len() - 1]@.room_id == room_id);
        assert(events =~= fewer.push(events.last()));
    }
}

/// A room that is not known yet is registered from its create event, the first of those that came;
/// one that is known is not registered again.
pub proof fn unknown_room_is_registered(
    before: FederatedJoin,
    report: JoinReport,
    after: FederatedJoin,
)
    requires
        FederatedJoin::follows(before, report, after),
        before.phase is CheckRoom,
    ensures
        after.phase is Register ==> report == JoinReport::Known(false) && after.phase->Register_events
            == before.phase->CheckRoom_events && first_create(
            after.phase->Register_events@,
            after.phase->Register_create as int,
        ),
        after.phase is StageAll ==> report == JoinReport::Known(true),
{
    if after.phase is Register {
        create_position_is_first(before.phase->CheckRoom_events@, 0);
    }
}

/// What was staged is waited for. The user's own `join` answers 200 with the room; without it the
/// join waits while time is left, looks again whenever something is stored, and is answered 504
/// when time is up. From there no other candidate is tried.
pub proof fn staged_join_is_waited_for(
    before: FederatedJoin,
    report: JoinReport,
    after: FederatedJoin,
)
    requires
        FederatedJoin::follows(before, report, after),
        before.phase is ReadMember || before.phase is AwaitStored,
    ensures
        after.next == before.next,
        !(after.phase is AskTemplate),
        before.phase is ReadMember && report is Member ==> {
            let event = report->Member_event;
            let joined = event is Some && event->0@.content.text_at("membership"@) == Some(
                "join"@,
            );
            &&& joined ==> (after.phase matches JoinPhase::Answered { response } && response.status
                == 200 && response.body.model().text_at("room_id"@) == Some(before.room_id@))
            &&& !joined && report->Member_time_left ==> after.phase is AwaitStored
            &&& !joined && !report->Member_time_left ==> (
            after.phase matches JoinPhase::Answered { response } && response.status == 504)
        },
        before.phase is ReadMember && report is Fault ==> (
        after.phase matches JoinPhase::Answered { response } && response.status == 500),
        before.phase is AwaitStored && report is Stored ==> after.phase is ReadMember,
        before.phase is AwaitStored && report is TimeUp ==> (
        after.phase matches JoinPhase::Answered { response } && response.status == 504),
        before.phase is AwaitStored && report is StoreGone ==> (
        after.phase matches JoinPhase::Answered { response } && response.status == 500),
{
    member_position_is(seq![("room_id"@, JsonModel::Str(before.room_id@))], "room_id"@, 0, 0);
}

/// A run of a join: the states it goes through, and what came of each.
pub open spec fn is_run(states: Seq<FederatedJoin>, reports: Seq<JoinReport>) -> bool {
    &&& states.len() == reports.len() + 1
    &&& states[0].phase is AskTemplate && states[0].next == 0
    &&& forall|i: int|
        0 <= i < reports.len() ==> FederatedJoin::follows(
            states[i],
            #[trigger] reports[i],
            states[i + 1],
        )
}

/// Whether the step at `i` staged what a candidate answered, and the store took it.
pub open spec fn staged_at(states: Seq<FederatedJoin>, reports: Seq<JoinReport>, i: int) -> bool {
    states[i].phase is StageAll && reports[i] is Done
}

/// Whether at the step `i` a candidate took the join.
pub open spec fn accepted_at(states: Seq<FederatedJoin>, reports: Seq<JoinReport>, i: int) -> bool {
    states[i].phase is SendJoin && reports[i] is Accepted
}

/// A user is told that they joined only after a candidate took their join and what it answered was
/// staged here; the same holds of the wait for it.
pub proof fn joined_only_after_staging(
    states: Seq<FederatedJoin>,
    reports: Seq<JoinReport>,
    at: int,
)
    requires
        is_run(states, reports),
        0 <= at < states.len(),
        states[at].phase is ReadMember || states[at].phase is AwaitStored || (
        states[at].phase matches JoinPhase::Answered { response } && response.status == 200),
    ensures
        exists|i: int| 0 <= i < at && #[trigger] staged_at(states, reports, i),
        exists|i: int| 0 <= i < at && #[trigger] accepted_at(states, reports, i),
    decreases at,
{
    if at > 0 {
        let before = states[at - 1];
        assert(FederatedJoin::follows(before, reports[at - 1], states[at - 1 + 1]));
        if before.phase is ReadMember || before.phase is AwaitStored || before.phase is Answered {
            joined_only_after_staging(states, reports, at - 1);
        } else {
            assert(staged_at(states, reports, at - 1));
            held_only_when_accepted(states, reports, at - 1);
        }
    }
}

proof fn held_only_when_accepted(states: Seq<FederatedJoin>, reports: Seq<JoinReport>, at: int)
    requires
        is_run(states, reports),
        0 <= at < states.len(),
        states[at].phase is CheckRoom || states[at].phase is Register || states[at].phase
            is StageAll,
    ensures
        exists|i: int| 0 <= i < at && #[trigger] accepted_at(states, reports, i),
    decreases at,
{
    if at > 0 {
        assert(FederatedJoin::follows(states[at - 1], reports[at - 1], states[at - 1 + 1]));
        if states[at - 1].phase is SendJoin {
            assert(accepted_at(states, reports, at - 1));
        } else {
            held_only_when_accepted(states, reports, at - 1);
        }
    }
}

/// Every server that a query names is a candidate, in the order in which they are named: one more
/// pair that names a server adds that server at the end, any other pair adds nothing.
pub proof fn every_named_server_is_a_candidate(pairs: Seq<Seq<char>>, at: int)
    requires
        0 <= at < pairs.len(),
    ensures
        named_server(pairs[at]) matches Some(name) ==> named_servers(pairs).contains(name)
            && valid_server_name(name),
        (forall|i: int| 0 <= i < pairs.len() ==> named_server(#[trigger] pairs[i]) is Some)
            ==> named_servers(pairs).len() == pairs.len() && named_servers(pairs)[at]
            == named_server(pairs[at])->0,
    decreases pairs.len(),
{
    let fewer = pairs.drop_last();
    let before = named_servers(fewer);
    if let Some(name) = named_server(pairs[at]) {
        if let Some(last) = named_server(pairs.last()) {
            lemma_seq_contains_after_push(before, last, name);
        }
    }
    if at < pairs.len() - 1 {
        every_named_server_is_a_candidate(fewer, at);
    } else if fewer.len() > 0 {
        every_named_server_is_a_candidate(fewer, 0);
    }
    if forall|i: int| 0 <= i < pairs.len() ==> named_server(#[trigger] pairs[i]) is Some {
        assert forall|i: int| 0 <= i < fewer.len() implies named_server(#[trigger] fewer[i])
            is Some by {
            assert(named_server(pairs[i]) is Some);
        }
        assert(named_server(pairs[pairs.len() - 1]) is Some);
    }
}

/// A candidate that a query names by `server_name` is taken as it is written, where it is a server
/// name without an escape.
pub proof fn plain_server_name_is_taken(name: Seq<char>)
    requires
        valid_server_name(name),
    ensures
        named_server("server_name"@.push('=') + name) == Some(name),
{
    let pair = "server_name"@.push('=') + name;
    reveal_strlit("server_name");
    assert(pair[11] == '=');
    assert forall|i: int| 0 <= i < 11 implies pair[i] != '=' by {
        assert(pair[i] == "server_name"@[i]);
    }
    crate::text::position_is(pair, '=', 0, 11);
    assert(pair.take(11) =~= "server_name"@);
    assert(pair.skip(12) =~= name);
    server_name_chars(name);
    reveal_strlit("%3A");
    reveal_strlit("%3a");
    crate::text::nothing_is_replaced(name, "%3A"@, ':');
    crate::text::nothing_is_replaced(name, "%3a"@, ':');
}

} // verus!
