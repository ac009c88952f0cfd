//! The second half of the federated join and of the federated leave, where this server is the
//! resident: `PUT /_matrix/federation/v2/send_join` and `PUT /_matrix/federation/v2/send_leave`.
//!
//! The completed membership event comes back. Its shape and who sent it are checked; then it is
//! applied, stored and sent on. A join is answered with the room's state events and recent
//! timeline, a leave with nothing.

use vstd::prelude::*;

use crate::auth::{attested, auth_refusal, authenticated_origin};
use crate::event::{event_models, opt_is, Event, EventModel};
use crate::get_missing_events::raws;
use crate::ids::{server_part, valid_user_id};
use crate::json::{Json, JsonModel};
use crate::response::FedError;
use crate::room_actor::RoomActorError;
use crate::send::{lives_on, user_lives_on};
use crate::text::texts;

verus! {

/// How many recent events of the timeline answer a join.
pub const TIMELINE_LIMIT: usize = 20;

/// Which of the two is at hand.
#[derive(Debug, Clone, Copy, PartialEq, Eq, Structural)]
pub enum Handshake {
    Join,
    Leave,
}

impl Handshake {
    /// The membership that the event must give.
    pub open spec fn membership(self) -> Seq<char> {
        match self {
            Handshake::Join => "join"@,
            Handshake::Leave => "leave"@,
        }
    }

    /// What is said of an event that gives another.
    pub open spec fn wrong_membership(self) -> Seq<char> {
        match self {
            Handshake::Join => "membership is not join"@,
            Handshake::Leave => "membership is not leave"@,
        }
    }

    /// What is said of an event that is malformed.
    pub open spec fn malformed(self) -> Seq<char> {
        match self {
            Handshake::Join => "malformed join event"@,
            Handshake::Leave => "malformed leave event"@,
        }
    }
}

/// What the body of a request came to.
#[derive(Debug, PartialEq, Eq)]
pub enum Received {
    /// It is not JSON.
    NotJson,
    /// It cannot be read as an event, or is malformed.
    Malformed,
    /// An event.
    Event(Event),
}

/// Why an event is refused for its shape, if so: it must be the membership event that the
/// handshake is about, by the user about whom it is.
pub open spec fn shape_complaint(event: EventModel, handshake: Handshake) -> Option<Seq<char>> {
    if !event.is_member() {
        Some("event is not an m.room.member event"@)
    } else if event.membership() != Some(handshake.membership()) {
        Some(handshake.wrong_membership())
    } else if event.state_key != Some(event.sender) {
        Some("state_key must equal sender"@)
    } else {
        None
    }
}

/// Whether this is the outcome of a handshake: its event, where nothing speaks against it, or the
/// first thing that does. It could be read, its shape is right, and the server that sends it owns
/// its sender.
pub open spec fn is_acceptance(
    received: Received,
    handshake: Handshake,
    header: Option<&str>,
    our_name: Seq<char>,
    accepted: Result<Event, FedError>,
) -> bool {
    match received {
        Received::NotJson => accepted matches Err(FedError::BadRequest(m)) && m@
            == "body is not valid JSON"@,
        Received::Malformed => accepted matches Err(FedError::BadRequest(m)) && m@
            == handshake.malformed(),
        Received::Event(event) => match shape_complaint(event@, handshake) {
            Some(complaint) => accepted matches Err(FedError::BadRequest(m)) && m@ == complaint,
            None => match auth_refusal(header, our_name) {
                Some(refusal) => accepted matches Err(FedError::Unauthorized(m)) && m@ == refusal,
                None => if lives_on(event@.sender, attested(header)->0) {
                    accepted == Ok::<Event, FedError>(event)
                } else {
                    accepted matches Err(FedError::Forbidden(m)) && m@
                        == "origin server does not own the event sender"@
                },
            },
        },
    }
}

/// The event of a handshake, where nothing speaks against it. Whether the room of the event is
/// known here is not asked.
pub fn accept_membership(
    received: Received,
    handshake: Handshake,
    header: Option<&str>,
    our_name: &str,
) -> (accepted: Result<Event, FedError>)
    ensures
        accepted is Ok <==> (received matches Received::Event(event) && accepted_from(
            event@,
            handshake,
            header,
            our_name@,
        )),
        is_acceptance(received, handshake, header, our_name@, accepted),
{
    let event = match received {
        Received::NotJson => return Err(FedError::BadRequest("body is not valid JSON")),
        Received::Malformed => return Err(
            match handshake {
                Handshake::Join => FedError::BadRequest("malformed join event"),
                Handshake::Leave => FedError::BadRequest("malformed leave event"),
            },
        ),
        Received::Event(event) => event,
    };
    if !event.is_member() {
        return Err(FedError::BadRequest("event is not an m.room.member event"));
    }
    match handshake {
        Handshake::Join => {
            if !event.has_membership("join") {
                return Err(FedError::BadRequest("membership is not join"));
            }
        },
        Handshake::Leave => {
            if !event.has_membership("leave") {
                return Err(FedError::BadRequest("membership is not leave"));
            }
        },
    }
    if !opt_is(&event.state_key, event.sender.as_str()) {
        return Err(FedError::BadRequest("state_key must equal sender"));
    }
    let origin = match authenticated_origin(header, our_name) {
        Ok(origin) => origin,
        Err(e) => return Err(e),
    };
    if !user_lives_on(event.sender.as_str(), origin.as_str()) {
        return Err(FedError::Forbidden("origin server does not own the event sender"));
    }
    Ok(event)
}

/// What the body of a join came to. A join is named under the version of its room, so the room is
/// looked up before the event is read.
#[derive(Debug, PartialEq, Eq)]
pub enum JoinBody {
    /// The room that it claims is not known here.
    UnknownRoom,
    /// It was read, as far as it could be.
    Read(Received),
}

/// The event of a join, where nothing speaks against it. A join to a room that is not known here is
/// answered so before anything else of it is looked at.
pub fn accept_join(body: JoinBody, header: Option<&str>, our_name: &str) -> (accepted: Result<
    Event,
    FedError,
>)
    ensures
        match body {
            JoinBody::UnknownRoom => accepted == Err::<Event, FedError>(FedError::RoomNotFound),
            JoinBody::Read(received) => is_acceptance(
                received,
                Handshake::Join,
                header,
                our_name@,
                accepted,
            ),
        },
{
    match body {
        JoinBody::UnknownRoom => Err(FedError::RoomNotFound),
        JoinBody::Read(received) => accept_membership(received, Handshake::Join, header, our_name),
    }
}

/// What a failure to apply the event is answered: a refusal by the auth rules is forbidden.
pub fn map_apply_err(err: RoomActorError) -> (error: FedError)
    ensures
        match err {
            RoomActorError::UnknownRoom => error is RoomNotFound,
            RoomActorError::Storage(e) => error == FedError::Storage(e),
            RoomActorError::Rejected | RoomActorError::Apply(_) => error matches FedError::Forbidden(
                m,
            ) && m@ == "event rejected by auth rules"@,
            _ => error matches FedError::Internal(m) && m@ == "could not apply the event"@,
        },
{
    match err {
        RoomActorError::UnknownRoom => FedError::RoomNotFound,
        RoomActorError::Storage(e) => FedError::Storage(e),
        RoomActorError::Rejected => FedError::Forbidden("event rejected by auth rules"),
        RoomActorError::Apply(_) => FedError::Forbidden("event rejected by auth rules"),
        _ => FedError::Internal("could not apply the event"),
    }
}

/// Some events as they travel.
pub(crate) fn raw_events(events: &Vec<Event>) -> (out: Vec<String>)
    ensures
        texts(out@) == raws(event_models(events@)),
{
    let mut out: Vec<String> = Vec::new();
    let mut i: usize = 0;
    while i < events.len()
        invariant
            i <= events.len(),
            out.len() == i,
            forall|k: int| 0 <= k < i ==> (#[trigger] out@[k])@ == events@[k]@.raw,
        decreases events.len() - i,
    {
        out.push(events[i].raw.clone());
        i += 1;
    }
    assert(texts(out@) =~= raws(event_models(events@)));
    out
}

/// The whole graph of a room's state events, as it travels: its heads, which the walk from them
/// leaves out, and then the walk.
pub fn collect_state_dag(heads: &Vec<Event>, ancestry: &Vec<Event>) -> (state_dag: Vec<String>)
    ensures
        texts(state_dag@) == raws(event_models(heads@)) + raws(event_models(ancestry@)),
{
    let mut state_dag = raw_events(heads);
    let mut rest = raw_events(ancestry);
    let ghost first = state_dag@;
    let ghost second = rest@;
    state_dag.append(&mut rest);
    assert(texts(state_dag@) =~= texts(first) + texts(second));
    state_dag
}

/// The answer to a join: the room's state events, its recent timeline, and the event itself.
#[derive(Debug, PartialEq, Eq)]
pub struct JoinAnswer {
    pub state_dag: Vec<String>,
    pub timeline: Vec<String>,
    pub event: String,
}

/// Answers a join with the room after it.
pub fn answer_join(
    applied: Result<(), RoomActorError>,
    event_raw: &str,
    heads: &Vec<Event>,
    ancestry: &Vec<Event>,
    timeline: &Vec<Event>,
) -> (answer: Result<JoinAnswer, FedError>)
    ensures
        match applied {
            Ok(_) => {
                &&& answer is Ok
                &&& texts(answer->Ok_0.state_dag@) == raws(event_models(heads@)) + raws(
                    event_models(ancestry@),
                )
                &&& texts(answer->Ok_0.timeline@) == raws(event_models(timeline@))
                &&& answer->Ok_0.event@ == event_raw@
            },
            Err(RoomActorError::UnknownRoom) => answer matches Err(FedError::RoomNotFound),
            Err(RoomActorError::Storage(e)) => answer == Err::<JoinAnswer, FedError>(
                FedError::Storage(e),
            ),
            Err(RoomActorError::Rejected | RoomActorError::Apply(_)) => answer matches Err(
                FedError::Forbidden(m),
            ) && m@ == "event rejected by auth rules"@,
            Err(_) => answer matches Err(FedError::Internal(m)) && m@
                == "could not apply the event"@,
        },
{
    match applied {
        Ok(_) => Ok(
            JoinAnswer {
                state_dag: collect_state_dag(heads, ancestry),
                timeline: raw_events(timeline),
                event: event_raw.to_owned(),
            },
        ),
        Err(e) => Err(map_apply_err(e)),
    }
}

/// Answers a leave: with nothing, where it was applied.
pub fn answer_leave(applied: Result<(), RoomActorError>) -> (answer: Result<Json, FedError>)
    ensures
        match applied {
            Ok(_) => answer is Ok && answer->Ok_0.model() == JsonModel::Object(Seq::empty()),
            Err(RoomActorError::UnknownRoom) => answer matches Err(FedError::RoomNotFound),
            Err(RoomActorError::Storage(e)) => answer == Err::<Json, FedError>(
                FedError::Storage(e),
            ),
            Err(RoomActorError::Rejected | RoomActorError::Apply(_)) => answer matches Err(
                FedError::Forbidden(m),
            ) && m@ == "event rejected by auth rules"@,
            Err(_) => answer matches Err(FedError::Internal(m)) && m@
                == "could not apply the event"@,
        },
{
    match applied {
        Ok(_) => Ok(Json::empty_object()),
        Err(e) => Err(map_apply_err(e)),
    }
}

/// Whether an event is accepted from whoever a header names.
pub open spec fn accepted_from(
    event: EventModel,
    handshake: Handshake,
    header: Option<&str>,
    our_name: Seq<char>,
) -> bool {
    &&& shape_complaint(event, handshake) is None
    &&& auth_refusal(header, our_name) is None
    &&& lives_on(event.sender, attested(header)->0)
}

/// A server speaks only for its own users: an accepted event is a membership event of a user about
/// themselves, and that user lives on the server that sent it, which is not this one.
pub proof fn accepted_is_own_membership(
    event: EventModel,
    handshake: Handshake,
    header: Option<&str>,
    our_name: Seq<char>,
)
    requires
        accepted_from(event, handshake, header, our_name),
    ensures
        event.is_member(),
        event.membership() == Some(handshake.membership()),
        event.state_key == Some(event.sender),
        attested(header) == Some(server_part(event.sender)),
        server_part(event.sender) != our_name,
{
}

/// What is accepted of a handshake, and what is not: exactly the membership event that it is about,
/// `join` or `leave`, by the user about whom it is, from a server other than this one, which is the
/// server of that user. The event is passed on as it came.
pub proof fn accepted_exactly(
    event: Event,
    handshake: Handshake,
    header: Option<&str>,
    our_name: &str,
    accepted: Result<Event, FedError>,
)
    requires
        call_ensures(
            accept_membership,
            (Received::Event(event), handshake, header, our_name),
            accepted,
        ),
    ensures
        accepted is Ok <==> {
            &&& event@.event_type == "m.room.member"@
            &&& event@.content.text_at("membership"@) == Some(
                match handshake {
                    Handshake::Join => "join"@,
                    Handshake::Leave => "leave"@,
                },
            )
            &&& event@.state_key == Some(event@.sender)
            &&& attested(header) is Some
            &&& attested(header) != Some(our_name@)
            &&& valid_user_id(event@.sender)
            &&& attested(header) == Some(server_part(event@.sender))
        },
        accepted matches Ok(kept) ==> kept == event,
{
}

/// A join is looked at only where its room is known; then it is accepted like any.
pub proof fn join_to_known_rooms_alone(
    body: JoinBody,
    header: Option<&str>,
    our_name: &str,
    accepted: Result<Event, FedError>,
)
    requires
        call_ensures(accept_join, (body, header, our_name), accepted),
    ensures
        body is UnknownRoom ==> accepted == Err::<Event, FedError>(FedError::RoomNotFound),
        body matches JoinBody::Read(received) ==> (accepted is Ok <==> (
        received matches Received::Event(event) && accepted_from(
            event@,
            Handshake::Join,
            header,
            our_name@,
        ))),
        body matches JoinBody::Read(received) ==> (accepted matches Ok(kept) ==> received
            == Received::Event(kept)),
{
}

/// A server that joins gets the whole of the room's state graph, the heads and all that the walk from
/// them found, the timeline, and its own event, each as it travels; and only where the event was
/// taken.
pub proof fn joined_get_the_room(
    applied: Result<(), RoomActorError>,
    event_raw: &str,
    heads: Vec<Event>,
    ancestry: Vec<Event>,
    timeline: Vec<Event>,
    answer: Result<JoinAnswer, FedError>,
    i: int,
)
    requires
        call_ensures(answer_join, (applied, event_raw, &heads, &ancestry, &timeline), answer),
    ensures
        answer is Ok <==> applied is Ok,
        answer matches Ok(answer) ==> {
            &&& answer.event@ == event_raw@
            &&& answer.state_dag@.len() == heads@.len() + ancestry@.len()
            &&& answer.timeline@.len() == timeline@.len()
            &&& 0 <= i < heads@.len() ==> answer.state_dag@[i]@ == heads@[i].raw@
            &&& 0 <= i < ancestry@.len() ==> answer.state_dag@[heads@.len() + i]@
                == ancestry@[i].raw@
            &&& 0 <= i < timeline@.len() ==> answer.timeline@[i]@ == timeline@[i].raw@
        },
        applied == Err::<(), RoomActorError>(RoomActorError::Rejected) ==> answer is Err
            && answer->Err_0 is Forbidden,
        applied == Err::<(), RoomActorError>(RoomActorError::UnknownRoom) ==> answer is Err
            && answer->Err_0 is RoomNotFound,
{
    if let Ok(answer) = answer {
        let first = raws(event_models(heads@));
        let second = raws(event_models(ancestry@));
        let third = raws(event_models(timeline@));
        assert(texts(answer.state_dag@).len() == (first + second).len());
        assert(texts(answer.timeline@).len() == third.len());
        if 0 <= i < heads@.len() {
            assert(texts(answer.state_dag@)[i] == (first + second)[i]);
        }
        if 0 <= i < ancestry@.len() {
            assert(texts(answer.state_dag@)[heads@.len() + i] == (first + second)[heads@.len() + i]);
        }
        if 0 <= i < timeline@.len() {
            assert(texts(answer.timeline@)[i] == third[i]);
        }
    }
}

/// A leave is answered with success only where it was taken.
pub proof fn left_only_when_taken(applied: Result<(), RoomActorError>, answer: Result<Json, FedError>)
    requires
        call_ensures(answer_leave, (applied,), answer),
    ensures
        answer is Ok <==> applied is Ok,
        applied == Err::<(), RoomActorError>(RoomActorError::Rejected) ==> answer is Err
            && answer->Err_0 is Forbidden,
        applied == Err::<(), RoomActorError>(RoomActorError::UnknownRoom) ==> answer is Err
            && answer->Err_0 is RoomNotFound,
{
}

/// A handshake is refused by the kind of what is wrong: what cannot be read or has the wrong shape is a
/// bad request, what no header attests is unauthorised, what another server sends is forbidden.
pub proof fn handshake_is_refused_by_kind(
    received: Received,
    handshake: Handshake,
    header: Option<&str>,
    our_name: &str,
    accepted: Result<Event, FedError>,
)
    requires
        call_ensures(accept_membership, (received, handshake, header, our_name), accepted),
    ensures
        !(received is Event) ==> accepted is Err && accepted->Err_0 is BadRequest,
        received matches Received::Event(event) ==> {
            let good = event.event_type@ == "m.room.member"@ && event@.state_key == Some(
                event.sender@,
            ) && event.content.model().text_at("membership"@) == Some(handshake.membership());
            &&& !good ==> accepted is Err && accepted->Err_0 is BadRequest
            &&& good && auth_refusal(header, our_name@) is Some ==> accepted is Err
                && accepted->Err_0 is Unauthorized && Some(accepted->Err_0->Unauthorized_0@)
                == auth_refusal(header, our_name@)
            &&& good && auth_refusal(header, our_name@) is None && accepted is Err
                ==> accepted->Err_0 is Forbidden
            &&& accepted is Ok ==> accepted->Ok_0 == event
        },
{
}

/// A join that was not applied fails by its kind: rejected by the rules, in an unknown room, for the
/// store, or for this server.
pub proof fn join_fails_by_kind(
    failed: RoomActorError,
    event_raw: &str,
    heads: Vec<Event>,
    ancestry: Vec<Event>,
    timeline: Vec<Event>,
    joined: Result<JoinAnswer, FedError>,
    left: Result<Json, FedError>,
)
    requires
        call_ensures(
            answer_join,
            (Err(failed), event_raw, &heads, &ancestry, &timeline),
            joined,
        ),
        call_ensures(answer_leave, (Err(failed),), left),
    ensures
        joined is Err && left is Err,
        joined->Err_0 is RoomNotFound <==> failed is UnknownRoom,
        joined->Err_0 is Storage <==> failed is Storage,
        joined->Err_0 is Forbidden <==> failed is Rejected || failed is Apply,
        left->Err_0 is RoomNotFound <==> failed is UnknownRoom,
        left->Err_0 is Storage <==> failed is Storage,
        left->Err_0 is Forbidden <==> failed is Rejected || failed is Apply,
        failed matches RoomActorError::Storage(e) ==> joined->Err_0->Storage_0 == e
            && left->Err_0->Storage_0 == e,
{
}

} // verus!
