//! Federated invites: those that come in for a user of this server, and those that a user of this
//! server sends out.

use vstd::prelude::*;
use vstd::seq_lib::lemma_seq_contains_after_push;

use crate::client::{invite_request_json, invite_request_to_json};
use crate::event::{opt_text, Event, EventModel};
use crate::ids::{
    is_room_id, server_of, server_part, user_server, valid_room_id, valid_user_id, ROOM_VERSION_ID,
};
use crate::json::{get_after_with, member_position_is, models, Json, JsonModel};
use crate::response::{
    error_response, FedError, Response, BAD_GATEWAY, BAD_REQUEST, FORBIDDEN,
    INTERNAL_SERVER_ERROR, NOT_FOUND, OK,
};
use crate::room_actor::{RoomActorError, StateEntry};
use crate::rooms::{draft_of, text_member, Draft};
use crate::text::same_text;
use crate::transaction::{list_in, read_list};

verus! {

/// What the body of a request came to.
#[derive(Debug, PartialEq, Eq)]
pub enum ReceivedInvite {
    /// It is not JSON.
    NotJson,
    /// It cannot be read as an event.
    Malformed,
    /// An event.
    Event(Event),
}

/// What the body of an invitation carries.
#[derive(Debug, PartialEq, Eq)]
pub struct InviteRequest {
    /// The event.
    pub event: Json,
    /// The version of its room.
    pub room_version: String,
    /// What the invited user may see of the room's state.
    pub invite_room_state: Vec<Json>,
}

/// What the body of an invitation carries.
pub struct InviteRequestModel {
    pub event: JsonModel,
    pub room_version: Seq<char>,
    pub invite_room_state: Seq<JsonModel>,
}

impl View for InviteRequest {
    type V = InviteRequestModel;

    open spec fn view(&self) -> InviteRequestModel {
        InviteRequestModel {
            event: self.event.model(),
            room_version: self.room_version@,
            invite_room_state: models(self.invite_room_state@),
        }
    }
}

/// What the body of an invitation carries, if it has the shape of one: an event and the version of
/// its room. What the invited user may see may be left out.
pub open spec fn invite_request_in(body: JsonModel) -> Option<InviteRequestModel> {
    match (
        body.get("event"@),
        body.text_at("room_version"@),
        list_in(body.get("invite_room_state"@)),
    ) {
        (Some(event), Some(room_version), Some(invite_room_state)) => Some(
            InviteRequestModel { event, room_version, invite_room_state },
        ),
        _ => None,
    }
}

/// Reads the body of an invitation. One that is not wrapped up, but is the bare event, is not read.
pub fn read_invite_request(body: &Json) -> (request: Option<InviteRequest>)
    ensures
        match request {
            Some(request) => invite_request_in(body.model()) == Some(request@),
            None => invite_request_in(body.model()) is None,
        },
{
    let event = match body.get("event") {
        Some(event) => event.copy(),
        None => return None,
    };
    let room_version = match body.str_at("room_version") {
        Some(version) => version.clone(),
        None => return None,
    };
    match read_list(body.get("invite_room_state")) {
        Some(invite_room_state) => Some(InviteRequest { event, room_version, invite_room_state }),
        None => None,
    }
}

/// What one server sends as an invitation the other reads: the event, the version of its room, and
/// what the invited user may see.
pub proof fn invite_request_round_trips(
    event: JsonModel,
    room_version: Seq<char>,
    shown: Seq<JsonModel>,
)
    ensures
        invite_request_in(invite_request_json(event, room_version, shown)) == Some(
            InviteRequestModel { event, room_version, invite_room_state: shown },
        ),
{
    reveal_strlit("event");
    reveal_strlit("room_version");
    reveal_strlit("invite_room_state");
    let members = invite_request_json(event, room_version, shown)->Object_0;
    assert(members[0].0.len() == 5);
    assert(members[1].0.len() == 12);
    assert(members[2].0.len() == 17);
    member_position_is(members, "event"@, 0, 0);
    member_position_is(members, "room_version"@, 0, 1);
    member_position_is(members, "invite_room_state"@, 0, 2);
}

/// What is wrong with an invite, if anything is: with its place, its shape, or whom it is for.
pub open spec fn invite_complaint(
    event: EventModel,
    room_id: Seq<char>,
    event_id: Seq<char>,
    our_server: Seq<char>,
) -> Option<Seq<char>> {
    if event.event_id != event_id {
        Some("event_id in path does not match the event"@)
    } else if event.room_id != room_id {
        Some("room_id in path does not match the event"@)
    } else if !event.is_member() {
        Some("event is not an m.room.member event"@)
    } else if event.membership() != Some("invite"@) {
        Some("membership is not invite"@)
    } else {
        match event.state_key {
            None => Some("invite is missing a state_key"@),
            Some(key) => if !valid_user_id(key) {
                Some("state_key is not a valid user id"@)
            } else if server_part(key) != our_server {
                Some("invited user is not local to this server"@)
            } else {
                None
            },
        }
    }
}

/// An invite that comes in, where nothing speaks against it, with the user whom it is for.
pub fn accept_invite(
    received: ReceivedInvite,
    room_id: &str,
    event_id: &str,
    our_server: &str,
) -> (accepted: Result<(Event, String), FedError>)
    ensures
        match received {
            ReceivedInvite::NotJson => accepted matches Err(FedError::BadRequest(m)) && m@
                == "body is not valid JSON"@,
            _ => if !valid_room_id(room_id@) {
                accepted matches Err(FedError::BadRequest(m)) && m@ == "invalid room_id"@
            } else {
                match received {
                    ReceivedInvite::Event(event) => match invite_complaint(
                        event@,
                        room_id@,
                        event_id@,
                        our_server@,
                    ) {
                        Some(complaint) => accepted matches Err(FedError::BadRequest(m)) && m@
                            == complaint,
                        None => accepted is Ok && accepted->Ok_0.0 == event && event@.state_key
                            == Some(accepted->Ok_0.1@),
                    },
                    _ => accepted matches Err(FedError::BadRequest(m)) && m@
                        == "malformed invite event"@,
                }
            },
        },
{
    match &received {
        ReceivedInvite::NotJson => return Err(FedError::BadRequest("body is not valid JSON")),
        _ => {},
    }
    if !is_room_id(room_id) {
        return Err(FedError::BadRequest("invalid room_id"));
    }
    let event = match received {
        ReceivedInvite::Event(event) => event,
        _ => return Err(FedError::BadRequest("malformed invite event")),
    };
    if !same_text(event.event_id.as_str(), event_id) {
        return Err(FedError::BadRequest("event_id in path does not match the event"));
    }
    if !same_text(event.room_id.as_str(), room_id) {
        return Err(FedError::BadRequest("room_id in path does not match the event"));
    }
    if !event.is_member() {
        return Err(FedError::BadRequest("event is not an m.room.member event"));
    }
    if !event.has_membership("invite") {
        return Err(FedError::BadRequest("membership is not invite"));
    }
    let invited = match &event.state_key {
        None => return Err(FedError::BadRequest("invite is missing a state_key")),
        Some(key) => match user_server(key.as_str()) {
            None => return Err(FedError::BadRequest("state_key is not a valid user id")),
            Some(server) => {
                if !same_text(server.as_str(), our_server) {
                    return Err(FedError::BadRequest("invited user is not local to this server"));
                }
                key.clone()
            },
        },
    };
    Ok((event, invited))
}

/// What is done with an invite that was accepted.
#[derive(Debug, PartialEq, Eq)]
pub enum Disposition {
    /// The room is hosted here: the invite is staged like any event, as one from this server.
    Stage { origin: String },
    /// It is not: the invite is kept as a stub.
    Keep,
}

/// What is done with an invite: by whether its room is hosted here. It comes from the server of
/// its sender.
pub fn dispose(hosted: Result<bool, String>, event: &Event) -> (disposition: Result<
    Disposition,
    FedError,
>)
    requires
        valid_user_id(event@.sender),
    ensures
        match hosted {
            Err(e) => disposition == Err::<Disposition, FedError>(FedError::Storage(e)),
            Ok(false) => disposition matches Ok(Disposition::Keep),
            Ok(true) => disposition matches Ok(Disposition::Stage { origin }) && origin@
                == server_part(event@.sender),
        },
{
    match hosted {
        Err(e) => Err(FedError::Storage(e)),
        Ok(false) => Ok(Disposition::Keep),
        Ok(true) => Ok(
            Disposition::Stage { origin: server_of(event.sender.as_str()) },
        ),
    }
}

/// The content of an invite, with a reason where one is given.
pub open spec fn invite_with_reason(reason: Option<Seq<char>>) -> JsonModel {
    match reason {
        None => text_member("membership"@, "invite"@),
        Some(reason) => JsonModel::Object(
            seq![
                ("membership"@, JsonModel::Str("invite"@)),
                ("reason"@, JsonModel::Str(reason)),
            ],
        ),
    }
}

/// The content of an invite.
pub fn invite_content(reason: &Option<String>) -> (content: Json)
    ensures
        content.model() == invite_with_reason(opt_text(*reason)),
{
    let content = Json::single("membership", Json::string("invite"));
    match reason {
        None => content,
        Some(reason) => {
            let content = content.and("reason", Json::string(reason.as_str()));
            assert(content.model()->Object_0 =~= invite_with_reason(Some(reason@))->Object_0);
            content
        },
    }
}

/// What an invite that goes out is doing.
#[derive(Debug, PartialEq, Eq)]
pub enum InvitePhase {
    /// Building the event on the room's heads; nothing is stored.
    Build,
    /// Reading the state of the room that the one invited may see.
    ReadState { candidate: Event },
    /// Sending it to the server of the one invited.
    Federate { candidate: Event, body: Json },
    /// Applying and storing what came back.
    Apply { event: Event },
    /// Answered.
    Answered { response: Response },
}

/// What an invite that goes out needs done.
#[derive(Debug, PartialEq, Eq)]
pub enum InviteAction<'a> {
    /// Build this event in this room, and store nothing.
    Build { room_id: &'a String, draft: Draft },
    /// Read the state of this room, and the event as JSON.
    ReadState { room_id: &'a String, candidate: &'a Event },
    /// Send this body to this server, as the invitation by this event to this room.
    Federate {
        server: &'a String,
        room_id: &'a String,
        event_id: &'a String,
        body: &'a Json,
    },
    /// Apply this event to this room.
    Apply { room_id: &'a String, event: &'a Event },
    /// Answer.
    Answer(&'a Response),
}

/// What came of it.
#[derive(Debug, PartialEq, Eq)]
pub enum InviteReport {
    /// The event.
    Built(Event),
    /// The event could not be built.
    NotBuilt(RoomActorError),
    /// The event as JSON, and the state of the room, empty where it cannot be read.
    State { event: Json, state: Vec<StateEntry> },
    /// What the other server answered with: an event, or nothing that can be read as one.
    Returned(Option<Event>),
    /// The other server's status.
    Refused(u16),
    /// No answer.
    Unreachable,
    /// What applying it came to.
    Applied(Result<(), RoomActorError>),
}

/// An invite that goes out.
#[derive(Debug, PartialEq, Eq)]
pub struct OutboundInvite {
    pub room_id: String,
    /// The one who invites.
    pub sender: String,
    /// The one invited.
    pub target: String,
    pub reason: Option<String>,
    /// The server of the one invited.
    pub server: String,
    pub phase: InvitePhase,
}

/// What is sent as an invitation: the event, with what the one invited may see of the room under
/// its `unsigned`, in an envelope with the version of the room and what may be seen once more.
pub open spec fn invitation_json(
    event: JsonModel,
    state: Seq<StateEntry>,
    inviter: Seq<char>,
) -> JsonModel {
    let shown = shown_state(state, inviter);
    invite_request_json(with_shown_state(event, shown), ROOM_VERSION_ID@, shown)
}

/// What is sent as an invitation.
pub fn invitation_to_json(event: Json, state: &Vec<StateEntry>, inviter: &str) -> (body: Json)
    ensures
        body.model() == invitation_json(event.model(), state@, inviter@),
{
    let event = with_invite_room_state(event, build_invite_room_state(state, inviter));
    invite_request_to_json(event, ROOM_VERSION_ID, build_invite_room_state(state, inviter))
}

impl OutboundInvite {
    /// Whether two states are of the same invite.
    pub open spec fn same_invite(self, other: OutboundInvite) -> bool {
        &&& self.room_id == other.room_id
        &&& self.sender == other.sender
        &&& self.target == other.target
        &&& self.reason == other.reason
        &&& self.server == other.server
    }

    /// The invite is answered with an error.
    pub open spec fn errs(self, status: u16, errcode: Seq<char>, error: Seq<char>) -> bool {
        self.phase matches InvitePhase::Answered { response } && response.is_error(
            status,
            errcode,
            error,
        )
    }

    /// How a report takes an invite on.
    pub open spec fn follows(
        before: OutboundInvite,
        report: InviteReport,
        after: OutboundInvite,
    ) -> bool {
        &&& before.same_invite(after)
        &&& match (before.phase, report) {
            (InvitePhase::Build, InviteReport::Built(candidate)) => after.phase
                == (InvitePhase::ReadState { candidate }),
            (InvitePhase::Build, InviteReport::NotBuilt(e)) => if e is UnknownRoom {
                after.errs(NOT_FOUND, "M_NOT_FOUND"@, "Not a known room"@)
            } else {
                after.errs(BAD_REQUEST, "M_INVALID_PARAM"@, e.text())
            },
            (InvitePhase::ReadState { candidate }, InviteReport::State { event, state }) => {
                &&& after.phase matches InvitePhase::Federate { candidate: sent, body }
                &&& sent == candidate
                &&& body.model() == invitation_json(event.model(), state@, before.sender@)
            },
            (
                InvitePhase::Federate { candidate, .. },
                InviteReport::Returned(returned),
            ) => if returned is Some && returned->0@.event_id == candidate@.event_id {
                after.phase == (InvitePhase::Apply { event: returned->0 })
            } else {
                after.errs(
                    BAD_GATEWAY,
                    "M_UNKNOWN"@,
                    "invitee server returned an unexpected event"@,
                )
            },
            (InvitePhase::Federate { .. }, InviteReport::Refused(status)) => if status
                == FORBIDDEN {
                after.errs(FORBIDDEN, "M_FORBIDDEN"@, "invitee server rejected the invite"@)
            } else {
                after.errs(BAD_GATEWAY, "M_UNKNOWN"@, "invitee server rejected the invite"@)
            },
            (InvitePhase::Federate { .. }, InviteReport::Unreachable) => after.errs(
                BAD_GATEWAY,
                "M_UNKNOWN"@,
                "could not reach the invitee's server"@,
            ),
            (InvitePhase::Apply { .. }, InviteReport::Applied(applied)) => match applied {
                Ok(_) => after.phase matches InvitePhase::Answered { response } && response.is(
                    OK,
                    JsonModel::Object(Seq::empty()),
                ),
                Err(RoomActorError::Rejected) => after.errs(
                    FORBIDDEN,
                    "M_FORBIDDEN"@,
                    "you do not have permission to invite this user"@,
                ),
                Err(RoomActorError::UnknownRoom) => after.errs(
                    NOT_FOUND,
                    "M_NOT_FOUND"@,
                    "Not a known room"@,
                ),
                Err(e) => after.errs(INTERNAL_SERVER_ERROR, "M_UNKNOWN"@, e.text()),
            },
            _ => before == after,
        }
    }

    /// Begins an invite. The server of the one invited is the one that is asked.
    pub fn begin(room_id: String, sender: String, target: String, reason: Option<String>) -> (invite:
        OutboundInvite)
        requires
            valid_user_id(target@),
        ensures
            invite.room_id == room_id,
            invite.sender == sender,
            invite.target == target,
            invite.reason == reason,
            invite.server@ == server_part(target@),
            invite.phase is Build,
    {
        let server = server_of(target.as_str());
        OutboundInvite { room_id, sender, target, reason, server, phase: InvitePhase::Build }
    }

    /// What the invite needs done now.
    pub fn action(&self) -> (action: InviteAction<'_>)
        ensures
            match self.phase {
                InvitePhase::Build => {
                    &&& action matches InviteAction::Build { room_id, draft }
                    &&& *room_id == self.room_id
                    &&& draft@ == crate::rooms::draft(
                        self.sender@,
                        "m.room.member"@,
                        self.target@,
                        invite_with_reason(opt_text(self.reason)),
                    )
                },
                InvitePhase::ReadState { candidate } => action == (InviteAction::ReadState {
                    room_id: &self.room_id,
                    candidate: &candidate,
                }),
                InvitePhase::Federate { candidate, body } => action == (InviteAction::Federate {
                    server: &self.server,
                    room_id: &self.room_id,
                    event_id: &candidate.event_id,
                    body: &body,
                }),
                InvitePhase::Apply { event } => action == (InviteAction::Apply {
                    room_id: &self.room_id,
                    event: &event,
                }),
                InvitePhase::Answered { response } => action == InviteAction::Answer(&response),
            },
    {
        let room_id = &self.room_id;
        match &self.phase {
            InvitePhase::Build => InviteAction::Build {
                room_id,
                draft: draft_of(
                    self.sender.as_str(),
                    "m.room.member",
                    self.target.as_str(),
                    invite_content(&self.reason),
                ),
            },
            InvitePhase::ReadState { candidate } => InviteAction::ReadState { room_id, candidate },
            InvitePhase::Federate { candidate, body } => InviteAction::Federate {
                server: &self.server,
                room_id,
                event_id: &candidate.event_id,
                body,
            },
            InvitePhase::Apply { event } => InviteAction::Apply { room_id, event },
            InvitePhase::Answered { response } => InviteAction::Answer(response),
        }
    }

    fn turn(self, phase: InvitePhase) -> (after: OutboundInvite)
        ensures
            self.same_invite(after),
            after.phase == phase,
    {
        OutboundInvite {
            room_id: self.room_id,
            sender: self.sender,
            target: self.target,
            reason: self.reason,
            server: self.server,
            phase,
        }
    }

    fn err(self, status: u16, errcode: &str, error: &str) -> (after: OutboundInvite)
        ensures
            self.same_invite(after),
            after.errs(status, errcode@, error@),
    {
        self.turn(InvitePhase::Answered { response: error_response(status, errcode, error) })
    }

    /// Takes the invite on from a report: it is sent first, and stored only once the other server
    /// has taken it. A report that answers nothing that was asked changes nothing.
    pub fn step(self, report: InviteReport) -> (after: OutboundInvite)
        ensures
            OutboundInvite::follows(self, report, after),
    {
        let OutboundInvite { room_id, sender, target, reason, server, phase } = self;
        // The invite without its phase; the phase is set below.
        let rest = OutboundInvite {
            room_id,
            sender,
            target,
            reason,
            server,
            phase: InvitePhase::Build,
        };
        match (phase, report) {
            (InvitePhase::Build, InviteReport::Built(candidate)) => rest.turn(
                InvitePhase::ReadState { candidate },
            ),
            (InvitePhase::Build, InviteReport::NotBuilt(e)) => match e {
                RoomActorError::UnknownRoom => rest.err(
                    NOT_FOUND,
                    "M_NOT_FOUND",
                    "Not a known room",
                ),
                e => rest.err(BAD_REQUEST, "M_INVALID_PARAM", e.to_text().as_str()),
            },
            (InvitePhase::ReadState { candidate }, InviteReport::State { event, state }) => {
                let body = invitation_to_json(event, &state, rest.sender.as_str());
                rest.turn(InvitePhase::Federate { candidate, body })
            },
            (InvitePhase::Federate { candidate, .. }, InviteReport::Returned(returned)) => {
                match returned {
                    Some(event) => {
                        if same_text(event.event_id.as_str(), candidate.event_id.as_str()) {
                            return rest.turn(InvitePhase::Apply { event });
                        }
                    },
                    None => {},
                }
                rest.err(
                    BAD_GATEWAY,
                    "M_UNKNOWN",
                    "invitee server returned an unexpected event",
                )
            },
            (InvitePhase::Federate { .. }, InviteReport::Refused(status)) => {
                if status == FORBIDDEN {
                    rest.err(FORBIDDEN, "M_FORBIDDEN", "invitee server rejected the invite")
                } else {
                    rest.err(BAD_GATEWAY, "M_UNKNOWN", "invitee server rejected the invite")
                }
            },
            (InvitePhase::Federate { .. }, InviteReport::Unreachable) => rest.err(
                BAD_GATEWAY,
                "M_UNKNOWN",
                "could not reach the invitee's server",
            ),
            (InvitePhase::Apply { .. }, InviteReport::Applied(applied)) => match applied {
                Ok(_) => rest.turn(
                    InvitePhase::Answered { response: Response::ok(Json::empty_object()) },
                ),
                Err(RoomActorError::Rejected) => rest.err(
                    FORBIDDEN,
                    "M_FORBIDDEN",
                    "you do not have permission to invite this user",
                ),
                Err(RoomActorError::UnknownRoom) => rest.err(
                    NOT_FOUND,
                    "M_NOT_FOUND",
                    "Not a known room",
                ),
                Err(e) => rest.err(INTERNAL_SERVER_ERROR, "M_UNKNOWN", e.to_text().as_str()),
            },
            (phase, _) => rest.turn(phase),
        }
    }
}

/// A run of an invite that goes out: the states it goes through, and what came of each.
pub open spec fn is_run(states: Seq<OutboundInvite>, reports: Seq<InviteReport>) -> bool {
    &&& states.len() == reports.len() + 1
    &&& states[0].phase is Build
    &&& forall|i: int|
        0 <= i < reports.len() ==> OutboundInvite::follows(
            states[i],
            #[trigger] reports[i],
            states[i + 1],
        )
}

/// Whether the other server took the invite that it was sent, by returning this event.
pub open spec fn taken(state: OutboundInvite, report: InviteReport, event: Event) -> bool {
    &&& state.phase matches InvitePhase::Federate { candidate, .. } && candidate@.event_id
        == event@.event_id
    &&& report == InviteReport::Returned(Some(event))
}

/// Only what the other server took is applied: it is the event that was sent.
pub proof fn applied_only_when_taken(
    states: Seq<OutboundInvite>,
    reports: Seq<InviteReport>,
    at: int,
)
    requires
        is_run(states, reports),
        0 <= at < states.len(),
        states[at].phase is Apply,
    ensures
        exists|i: int|
            0 <= i < at && #[trigger] taken(states[i], reports[i], states[at].phase->Apply_event),
    decreases at,
{
    if at > 0 {
        assert(OutboundInvite::follows(states[at - 1], reports[at - 1], states[at - 1 + 1]));
        if states[at - 1].phase is Apply {
            applied_only_when_taken(states, reports, at - 1);
        } else {
            assert(taken(states[at - 1], reports[at - 1], states[at].phase->Apply_event));
        }
    }
}

/// Whether an event was applied.
pub open spec fn is_applied(state: OutboundInvite, report: InviteReport, event: Event) -> bool {
    state.phase == (InvitePhase::Apply { event }) && (report matches InviteReport::Applied(applied)
        && applied is Ok)
}

/// All or nothing: an invite is answered as sent only after the other server took it and the event
/// that it took was applied here.
pub proof fn sent_only_when_taken_and_applied(
    states: Seq<OutboundInvite>,
    reports: Seq<InviteReport>,
    at: int,
) -> (event: Event)
    requires
        is_run(states, reports),
        0 <= at < states.len(),
        states[at].phase matches InvitePhase::Answered { response } && response.status == OK,
    ensures
        exists|i: int, j: int|
            0 <= i < j < at && #[trigger] taken(states[i], reports[i], event) && #[trigger]
                is_applied(states[j], reports[j], event),
    decreases at,
{
    assert(OutboundInvite::follows(states[at - 1], reports[at - 1], states[at - 1 + 1]));
    if states[at - 1].phase is Answered {
        sent_only_when_taken_and_applied(states, reports, at - 1)
    } else {
        let event = states[at - 1].phase->Apply_event;
        applied_only_when_taken(states, reports, at - 1);
        let i = choose|i: int| 0 <= i < at - 1 && #[trigger] taken(states[i], reports[i], event);
        assert(taken(states[i], reports[i], event));
        assert(is_applied(states[at - 1], reports[at - 1], event));
        event
    }
}

/// The server that is sent an invitation reads the event as it is, but for its `unsigned`, the
/// version of its room, and what the one invited may see.
pub proof fn invitation_is_read(event: JsonModel, state: Seq<StateEntry>, inviter: Seq<char>)
    ensures
        invite_request_in(invitation_json(event, state, inviter)) == Some(
            InviteRequestModel {
                event: with_shown_state(event, shown_state(state, inviter)),
                room_version: ROOM_VERSION_ID@,
                invite_room_state: shown_state(state, inviter),
            },
        ),
{
    let shown = shown_state(state, inviter);
    invite_request_round_trips(with_shown_state(event, shown), ROOM_VERSION_ID@, shown);
}

/// Whether a type of state event helps to show a room to one who is invited.
pub open spec fn shown_type(event_type: Seq<char>) -> bool {
    ||| event_type == "m.room.create"@
    ||| event_type == "m.room.join_rules"@
    ||| event_type == "m.room.canonical_alias"@
    ||| event_type == "m.room.avatar"@
    ||| event_type == "m.room.name"@
    ||| event_type == "m.room.encryption"@
    ||| event_type == "m.room.topic"@
}

fn is_shown_type(event_type: &str) -> (yes: bool)
    ensures
        yes == shown_type(event_type@),
{
    same_text(event_type, "m.room.create") || same_text(event_type, "m.room.join_rules")
        || same_text(event_type, "m.room.canonical_alias") || same_text(event_type, "m.room.avatar")
        || same_text(event_type, "m.room.name") || same_text(event_type, "m.room.encryption")
        || same_text(event_type, "m.room.topic")
}

/// Whether an entry of the state is shown to one who is invited: those of some types, and the
/// member event of the one who invites.
pub open spec fn is_shown(entry: StateEntry, inviter: Seq<char>) -> bool {
    shown_type(entry.event_type@) || (entry.event_type@ == "m.room.member"@ && entry.state_key@
        == inviter)
}

/// An entry of the state, reduced to its type, state key, sender and content.
pub open spec fn stripped(entry: StateEntry) -> JsonModel {
    JsonModel::Object(
        seq![
            ("type"@, JsonModel::Str(entry.event_type@)),
            ("state_key"@, JsonModel::Str(entry.state_key@)),
            ("sender"@, JsonModel::Str(entry.event@.sender)),
            ("content"@, entry.event@.content),
        ],
    )
}

/// The entries of the state that are shown, reduced.
pub open spec fn shown_state(state: Seq<StateEntry>, inviter: Seq<char>) -> Seq<JsonModel>
    decreases state.len(),
{
    if state.len() == 0 {
        Seq::empty()
    } else {
        let before = shown_state(state.drop_last(), inviter);
        if is_shown(state.last(), inviter) {
            before.push(stripped(state.last()))
        } else {
            before
        }
    }
}

/// The state of a room that is shown to one who is invited.
pub fn build_invite_room_state(state: &Vec<StateEntry>, inviter: &str) -> (shown: Vec<Json>)
    ensures
        models(shown@) == shown_state(state@, inviter@),
{
    let mut shown: Vec<Json> = Vec::new();
    let mut i: usize = 0;
    assert(state@.take(0) =~= Seq::empty());
    assert(models(shown@) =~= Seq::empty());
    while i < state.len()
        invariant
            i <= state.len(),
            models(shown@) == shown_state(state@.take(i as int), inviter@),
        decreases state.len() - i,
    {
        assert(state@.take(i + 1).drop_last() =~= state@.take(i as int));
        let entry = &state[i];
        if is_shown_type(entry.event_type.as_str()) || (same_text(
            entry.event_type.as_str(),
            "m.room.member",
        ) && same_text(entry.state_key.as_str(), inviter)) {
            let json = Json::empty_object().and(
                "type",
                Json::string(entry.event_type.as_str()),
            ).and("state_key", Json::string(entry.state_key.as_str())).and(
                "sender",
                Json::string(entry.event.sender.as_str()),
            ).and("content", entry.event.content.copy());
            assert(json.model()->Object_0 =~= stripped(*entry)->Object_0);
            let ghost before = shown@;
            shown.push(json);
            assert(models(shown@) =~= models(before).push(json.model()));
        }
        i += 1;
    }
    assert(state@.take(i as int) =~= state@);
    shown
}

/// An event with the state that is shown put under `unsigned`. What is no object is left as it is,
/// and so is an `unsigned` that is none.
pub open spec fn with_shown_state(event: JsonModel, shown: Seq<JsonModel>) -> JsonModel {
    match event {
        JsonModel::Object(_) => {
            let unsigned = match event.get("unsigned"@) {
                Some(unsigned) => unsigned,
                None => JsonModel::Object(Seq::empty()),
            };
            event.with(
                "unsigned"@,
                unsigned.with("invite_room_state"@, JsonModel::Array(shown)),
            )
        },
        other => other,
    }
}

/// Puts the state that is shown into an event, under `unsigned`. That is outside the hash, so the
/// event keeps its identifier.
pub fn with_invite_room_state(event: Json, shown: Vec<Json>) -> (json: Json)
    ensures
        json.model() == with_shown_state(event.model(), models(shown@)),
{
    match &event {
        Json::Object(_) => {},
        _ => return event,
    }
    let unsigned = match event.get("unsigned") {
        Some(unsigned) => unsigned.copy(),
        None => Json::empty_object(),
    };
    event.with("unsigned", unsigned.with("invite_room_state", Json::array(shown)))
}

/// The state that is shown changes nothing of the event but its `unsigned` member.
pub proof fn shown_state_is_unsigned(event: JsonModel, shown: Seq<JsonModel>, key: Seq<char>)
    requires
        key != "unsigned"@,
    ensures
        with_shown_state(event, shown).get(key) == event.get(key),
{
    if event is Object {
        let unsigned = match event.get("unsigned"@) {
            Some(unsigned) => unsigned,
            None => JsonModel::Object(Seq::empty()),
        };
        get_after_with(
            event,
            "unsigned"@,
            unsigned.with("invite_room_state"@, JsonModel::Array(shown)),
            key,
        );
    }
}

/// A step of an invite does what the law of its machine says.
pub proof fn invite_steps_by_the_law(before: OutboundInvite, report: InviteReport, after: OutboundInvite)
    requires
        call_ensures(OutboundInvite::step, (before, report), after),
    ensures
        OutboundInvite::follows(before, report, after),
{
}

/// An invite goes its way: it is built, the state that may be seen is read, it is sent to the server
/// of the one invited, and what that server returned is applied; and it stays about the same room,
/// by and for the same users. Only at its end is it answered with success.
pub proof fn invite_goes_its_way(before: OutboundInvite, report: InviteReport, after: OutboundInvite)
    requires
        OutboundInvite::follows(before, report, after),
    ensures
        after.room_id == before.room_id && after.sender == before.sender && after.target
            == before.target && after.server == before.server && after.reason == before.reason,
        before.phase is Build && report is Built ==> after.phase == (InvitePhase::ReadState {
            candidate: report->Built_0,
        }),
        before.phase is ReadState && report is State ==> (
        after.phase matches InvitePhase::Federate { candidate, .. } && candidate
            == before.phase->ReadState_candidate),
        before.phase is Federate && (report matches InviteReport::Returned(Some(event))
            && event@.event_id == before.phase->Federate_candidate@.event_id) ==> after.phase == (
        InvitePhase::Apply { event: report->Returned_0->0 }),
        before.phase is Apply && (report matches InviteReport::Applied(applied) && applied is Ok)
            ==> (after.phase matches InvitePhase::Answered { response } && response.status == 200),
        !(before.phase is Answered) && (after.phase matches InvitePhase::Answered { response }
            && response.status == 200) ==> before.phase is Apply && (
        report matches InviteReport::Applied(applied) && applied is Ok),
{
}

/// How an invite fails: an unknown room is 404; the other server's refusal is passed on as 403, and
/// whatever else it does, or does not, is 502; what the room's rules refuse is 403; what fails here
/// is 400 before anything was sent and 500 after.
pub proof fn invite_fails_by_kind(before: OutboundInvite, report: InviteReport, after: OutboundInvite)
    requires
        OutboundInvite::follows(before, report, after),
    ensures
        before.phase is Build && report is NotBuilt ==> (
        after.phase matches InvitePhase::Answered { response } && response.status
            == if report->NotBuilt_0 is UnknownRoom {
            404u16
        } else {
            400u16
        }),
        before.phase is Federate && report is Refused ==> (
        after.phase matches InvitePhase::Answered { response } && response.status
            == if report->Refused_0 == 403 {
            403u16
        } else {
            502u16
        }),
        before.phase is Federate && report is Unreachable ==> (
        after.phase matches InvitePhase::Answered { response } && response.status == 502),
        before.phase is Federate && report is Returned && !(
        report matches InviteReport::Returned(Some(event)) && event@.event_id
            == before.phase->Federate_candidate@.event_id) ==> (
        after.phase matches InvitePhase::Answered { response } && response.status == 502),
        before.phase is Apply && (report matches InviteReport::Applied(applied) && applied is Err)
            ==> (after.phase matches InvitePhase::Answered { response } && response.status == (
        match report->Applied_0->Err_0 {
            RoomActorError::Rejected => 403u16,
            RoomActorError::UnknownRoom => 404u16,
            _ => 500u16,
        })),
{
}

/// The body that is sent shows the one invited the room and the one who invites: it is read by the
/// other server as the event that was built, but for what is unsigned, with what may be seen.
pub proof fn invite_is_read_by_the_other(
    before: OutboundInvite,
    report: InviteReport,
    after: OutboundInvite,
    key: Seq<char>,
)
    requires
        OutboundInvite::follows(before, report, after),
        before.phase is ReadState,
        report is State,
    ensures
        after.phase is Federate,
        ({
            let request = invite_request_in(after.phase->Federate_body.model());
            &&& request is Some
            &&& request->0.room_version == "org.matrix.msc4242.12"@
            &&& request->0.invite_room_state == shown_state(report->State_state@, before.sender@)
            &&& key != "unsigned"@ ==> request->0.event.get(key)
                == report->State_event.model().get(key)
        }),
{
    let event = report->State_event.model();
    let shown = shown_state(report->State_state@, before.sender@);
    invitation_is_read(event, report->State_state@, before.sender@);
    if key != "unsigned"@ {
        shown_state_is_unsigned(event, shown, key);
    }
}

/// What one who is invited may see: the room's create event, its join rules, its names, its topic,
/// its picture and whether it is encrypted, and who invites; of each its type, key, sender and
/// content, and nothing else of the room's state.
pub proof fn shown_is_what_may_be_seen(state: Seq<StateEntry>, inviter: Seq<char>, json: JsonModel)
    ensures
        shown_state(state, inviter).contains(json) <==> exists|i: int|
            0 <= i < state.len() && may_be_seen(#[trigger] state[i], inviter) && json == stripped(
                state[i],
            ),
    decreases state.len(),
{
    if state.len() > 0 {
        let fewer = state.drop_last();
        let last = state.last();
        shown_is_what_may_be_seen(fewer, inviter, json);
        lemma_seq_contains_after_push(shown_state(fewer, inviter), stripped(last), json);
        if exists|i: int|
            0 <= i < fewer.len() && may_be_seen(#[trigger] fewer[i], inviter) && json == stripped(
                fewer[i],
            ) {
            let i = choose|i: int|
                0 <= i < fewer.len() && may_be_seen(#[trigger] fewer[i], inviter) && json
                    == stripped(fewer[i]);
            assert(state[i] == fewer[i]);
        }
        if exists|i: int|
            0 <= i < state.len() && may_be_seen(#[trigger] state[i], inviter) && json == stripped(
                state[i],
            ) {
            let i = choose|i: int|
                0 <= i < state.len() && may_be_seen(#[trigger] state[i], inviter) && json
                    == stripped(state[i]);
            if i < fewer.len() {
                assert(state[i] == fewer[i]);
            }
        }
        if may_be_seen(last, inviter) && json == stripped(last) {
            assert(state[state.len() - 1] == last);
        }
    }
}

/// Whether an entry of the state may be seen by one who is invited.
pub open spec fn may_be_seen(entry: StateEntry, inviter: Seq<char>) -> bool {
    ||| entry.event_type@ == "m.room.create"@
    ||| entry.event_type@ == "m.room.join_rules"@
    ||| entry.event_type@ == "m.room.canonical_alias"@
    ||| entry.event_type@ == "m.room.avatar"@
    ||| entry.event_type@ == "m.room.name"@
    ||| entry.event_type@ == "m.room.encryption"@
    ||| entry.event_type@ == "m.room.topic"@
    ||| entry.event_type@ == "m.room.member"@ && entry.state_key@ == inviter
}

/// What is read of an event that is shown: its type, its key, who sent it and what it says.
pub proof fn stripped_is_read(entry: StateEntry)
    ensures
        stripped(entry).text_at("type"@) == Some(entry.event_type@),
        stripped(entry).text_at("state_key"@) == Some(entry.state_key@),
        stripped(entry).text_at("sender"@) == Some(entry.event@.sender),
        stripped(entry).get("content"@) == Some(entry.event@.content),
{
    reveal_strlit("type");
    reveal_strlit("state_key");
    reveal_strlit("sender");
    reveal_strlit("content");
    assert("type"@.len() == 4 && "state_key"@.len() == 9 && "sender"@.len() == 6
        && "content"@.len() == 7);
    let members = stripped(entry)->Object_0;
    member_position_is(members, "type"@, 0, 0);
    member_position_is(members, "state_key"@, 0, 1);
    member_position_is(members, "sender"@, 0, 2);
    member_position_is(members, "content"@, 0, 3);
}

/// An invite that comes in is taken exactly where it is one, for a user of this server, under the
/// room and the identifier that it is sent for; whoever it is for is its state key.
pub proof fn invites_for_our_users_alone(
    event: Event,
    room_id: &str,
    event_id: &str,
    our_server: &str,
    accepted: Result<(Event, String), FedError>,
)
    requires
        call_ensures(
            accept_invite,
            (ReceivedInvite::Event(event), room_id, event_id, our_server),
            accepted,
        ),
    ensures
        accepted is Ok <==> {
            &&& valid_room_id(room_id@)
            &&& event@.event_id == event_id@
            &&& event@.room_id == room_id@
            &&& event@.event_type == "m.room.member"@
            &&& event@.content.text_at("membership"@) == Some("invite"@)
            &&& event@.state_key is Some
            &&& valid_user_id(event@.state_key->0)
            &&& server_part(event@.state_key->0) == our_server@
        },
        accepted matches Ok((kept, user)) ==> kept == event && Some(user@) == event@.state_key,
        accepted matches Err(e) ==> e is BadRequest,
{
}

/// An invite to a room that is hosted here is staged, as from the server of whoever sent it; one to
/// any other room is kept as it is.
pub proof fn kept_unless_hosted(hosted: bool, event: Event, disposition: Result<Disposition, FedError>)
    requires
        valid_user_id(event@.sender),
        call_ensures(dispose, (Ok(hosted), &event), disposition),
    ensures
        disposition is Ok,
        disposition->Ok_0 is Keep <==> !hosted,
        disposition->Ok_0 matches Disposition::Stage { origin } ==> origin@ == server_part(
            event@.sender,
        ),
{
}

/// An invite begins with the server of the one invited, for the room, the sender and the reason that
/// are given.
pub proof fn invite_begins_with_the_invited(
    room_id: String,
    sender: String,
    target: String,
    reason: Option<String>,
    local: Seq<char>,
    server: Seq<char>,
    invite: OutboundInvite,
)
    requires
        call_ensures(OutboundInvite::begin, (room_id, sender, target, reason), invite),
        target@ == local.push(':') + server,
        !local.contains(':'),
    ensures
        invite.phase is Build,
        invite.server@ == server,
        invite.room_id == room_id && invite.sender == sender,
        invite.target == target && invite.reason == reason,
{
    crate::ids::server_is_after_the_first_colon(local, server);
}

/// An invite that comes in is refused for what is wrong with it, and always as a bad request.
pub proof fn bad_invite_is_a_bad_request(
    received: ReceivedInvite,
    room_id: &str,
    event_id: &str,
    our_server: &str,
    accepted: Result<(Event, String), FedError>,
)
    requires
        call_ensures(accept_invite, (received, room_id, event_id, our_server), accepted),
    ensures
        accepted matches Err(refused) ==> refused is BadRequest,
        !(received is Event) ==> accepted is Err,
        received is NotJson ==> accepted->Err_0->BadRequest_0@ == "body is not valid JSON"@,
        !valid_room_id(room_id@) ==> accepted is Err,
{
}

/// What is shown to one who is invited is what may be seen, in the order of the room's state, stripped.
pub proof fn shown_to_the_invited(
    state: Vec<StateEntry>,
    inviter: &str,
    shown: Vec<Json>,
    json: JsonModel,
)
    requires
        call_ensures(build_invite_room_state, (&state, inviter), shown),
    ensures
        models(shown@).contains(json) <==> exists|i: int|
            0 <= i < state@.len() && may_be_seen(#[trigger] state@[i], inviter@) && json == stripped(
                state@[i],
            ),
{
    shown_is_what_may_be_seen(state@, inviter@, json);
}

/// An invitation is read exactly if it carries an event and the version of its room, and a list of
/// what may be seen, if anything.
pub proof fn invitation_is_understood(body: Json, request: Option<InviteRequest>)
    requires
        call_ensures(read_invite_request, (&body,), request),
    ensures
        ({
            let read = body.model();
            let seen = read.get("invite_room_state"@);
            &&& request is Some <==> read.get("event"@) is Some && read.text_at("room_version"@)
                is Some && (seen is None || seen->0 is Array)
            &&& request matches Some(request) ==> read.get("event"@) == Some(request.event.model())
            &&& request matches Some(request) ==> read.text_at("room_version"@) == Some(
                request.room_version@,
            )
            &&& request matches Some(request) ==> (seen matches Some(JsonModel::Array(items))
                ==> models(request.invite_room_state@) == items)
            &&& request matches Some(request) ==> (seen is None
                ==> request.invite_room_state@.len() == 0)
        }),
{
    if let Some(request) = request {
        assert(models(request.invite_room_state@).len() == request.invite_room_state@.len());
    }
}

} // verus!
