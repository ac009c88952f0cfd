//! What clients ask of memberships: join, leave, invite, kick, ban and unban. Each request comes to
//! an answer at once, or to one member event that the room's actor is to take.

use vstd::prelude::*;

use crate::event::{opt_is, opt_text, Event};
use crate::ids::{
    check_user_id, is_room_alias, room_id_complaint, server_part, user_id_complaint, user_server,
    valid_room_alias, valid_room_id, valid_user_id,
};
use crate::json::{member_position_is, Json, JsonModel};
use crate::make_join::content_text;
use crate::response::{
    error_is_read, error_response, Response, BAD_REQUEST, FORBIDDEN, INTERNAL_SERVER_ERROR,
    NOT_FOUND, OK,
};
use crate::room_actor::{room_actor_response, RoomActorError};
use crate::rooms::{
    draft, draft_of, refuse_room_id, storage_failed, text_member, text_member_is_read, Draft,
};
use crate::text::same_text;

verus! {

/// What a request comes to.
#[derive(Debug, PartialEq, Eq)]
pub enum Plan {
    /// An answer.
    Answer(Response),
    /// A member event that is to be built and sent.
    Emit(Draft),
}

/// The content of a member event, with a reason where one is given.
pub open spec fn member_content(membership: Seq<char>, reason: Option<Seq<char>>) -> JsonModel {
    match reason {
        None => text_member("membership"@, membership),
        Some(reason) => JsonModel::Object(
            seq![
                ("membership"@, JsonModel::Str(membership)),
                ("reason"@, JsonModel::Str(reason)),
            ],
        ),
    }
}

impl Plan {
    /// Whether this is the answer of an error.
    pub open spec fn is_error(self, status: u16, errcode: Seq<char>, error: Seq<char>) -> bool {
        self matches Plan::Answer(response) && response.is_error(status, errcode, error)
    }

    /// Whether this is the answer of success with a body.
    pub open spec fn is_ok(self, body: JsonModel) -> bool {
        self matches Plan::Answer(response) && response.is(OK, body)
    }

    /// Whether this is a member event that the caller authors: its type, about whom it is, which
    /// its state key says, and its content.
    pub open spec fn emits(
        self,
        sender: Seq<char>,
        user: Seq<char>,
        membership: Seq<char>,
        reason: Option<Seq<char>>,
    ) -> bool {
        self matches Plan::Emit(d) && d@ == draft(
            sender,
            "m.room.member"@,
            user,
            member_content(membership, reason),
        )
    }
}

/// The reason that a request gives.
pub open spec fn reason_in(body: Option<&Json>) -> Option<Seq<char>> {
    match body {
        Some(body) => body.model().text_at("reason"@),
        None => None,
    }
}

/// The user that a request names.
pub open spec fn target_in(body: Option<&Json>) -> Option<Seq<char>> {
    match body {
        Some(body) => body.model().text_at("user_id"@),
        None => None,
    }
}

/// The reason that a request gives.
pub fn body_reason(body: Option<&Json>) -> (reason: Option<String>)
    ensures
        opt_text(reason) == reason_in(body),
{
    match body {
        Some(body) => match body.str_at("reason") {
            Some(reason) => Some(reason.clone()),
            None => None,
        },
        None => None,
    }
}

/// The user that a request must name, or the answer where it names none.
pub fn body_target(body: Option<&Json>) -> (target: Result<String, Response>)
    ensures
        match target_in(body) {
            None => target is Err && target->Err_0.is_error(
                BAD_REQUEST,
                "M_MISSING_PARAM"@,
                "Missing required parameter: user_id"@,
            ),
            Some(user) => if valid_user_id(user) {
                target is Ok && target->Ok_0@ == user
            } else {
                target is Err && target->Err_0.is_error(
                    BAD_REQUEST,
                    "M_INVALID_PARAM"@,
                    user_id_complaint(user),
                )
            },
        },
{
    let named = match body {
        Some(body) => body.str_at("user_id"),
        None => None,
    };
    match named {
        None => Err(
            error_response(BAD_REQUEST, "M_MISSING_PARAM", "Missing required parameter: user_id"),
        ),
        Some(user) => match check_user_id(user.as_str()) {
            Ok(_) => Ok(user.clone()),
            Err(complaint) => Err(
                error_response(BAD_REQUEST, "M_INVALID_PARAM", complaint.as_str()),
            ),
        },
    }
}

/// The membership in a user's member event, as it was read.
pub fn current_membership(member: Result<Option<Event>, String>) -> (membership: Result<
    Option<String>,
    Response,
>)
    ensures
        match member {
            Err(e) => membership is Err && membership->Err_0.is_error(
                INTERNAL_SERVER_ERROR,
                "M_UNKNOWN"@,
                e@,
            ),
            Ok(event) => membership is Ok && opt_text(membership->Ok_0) == content_text(
                event,
                "membership"@,
            ),
        },
{
    match member {
        Err(e) => Err(storage_failed(e.as_str())),
        Ok(None) => Ok(None),
        Ok(Some(event)) => match event.content_str("membership") {
            Some(membership) => Ok(Some(membership.clone())),
            None => Ok(None),
        },
    }
}

/// The answer where a room is not known, or the store cannot tell.
pub fn require_room(known: Result<bool, String>) -> (refusal: Option<Response>)
    ensures
        match known {
            Ok(true) => refusal is None,
            Ok(false) => refusal is Some && refusal->0.is_error(
                NOT_FOUND,
                "M_NOT_FOUND"@,
                "Not a known room"@,
            ),
            Err(e) => refusal is Some && refusal->0.is_error(
                INTERNAL_SERVER_ERROR,
                "M_UNKNOWN"@,
                e@,
            ),
        },
{
    match known {
        Ok(true) => None,
        Ok(false) => Some(error_response(NOT_FOUND, "M_NOT_FOUND", "Not a known room")),
        Err(e) => Some(storage_failed(e.as_str())),
    }
}

fn emit(sender: &str, target: &str, membership: &str, body: Option<&Json>) -> (plan: Plan)
    ensures
        plan.emits(sender@, target@, membership@, reason_in(body)),
{
    let content = Json::single("membership", Json::string(membership));
    let content = match body_reason(body) {
        None => content,
        Some(reason) => {
            let content = content.and("reason", Json::string(reason.as_str()));
            assert(content.model()->Object_0 =~= member_content(
                membership@,
                Some(reason@),
            )->Object_0);
            content
        },
    };
    Plan::Emit(draft_of(sender, "m.room.member", target, content))
}

/// The caller joins a room. One who is joined already is answered at once, without another event.
pub fn plan_join(
    room_id: &str,
    sender: &str,
    body: Option<&Json>,
    member: Result<Option<Event>, String>,
) -> (plan: Plan)
    ensures
        if !valid_room_id(room_id@) {
            plan.is_error(BAD_REQUEST, "M_INVALID_PARAM"@, room_id_complaint(room_id@))
        } else {
            match member {
                Err(e) => plan.is_error(INTERNAL_SERVER_ERROR, "M_UNKNOWN"@, e@),
                Ok(event) => if content_text(event, "membership"@) == Some("join"@) {
                    plan.is_ok(text_member("room_id"@, room_id@))
                } else {
                    plan.emits(sender@, sender@, "join"@, reason_in(body))
                },
            }
        },
{
    match refuse_room_id(room_id) {
        Some(response) => return Plan::Answer(response),
        None => {},
    }
    match current_membership(member) {
        Err(response) => Plan::Answer(response),
        Ok(membership) => {
            if opt_is(&membership, "join") {
                Plan::Answer(Response::ok(Json::single("room_id", Json::string(room_id))))
            } else {
                emit(sender, sender, "join", body)
            }
        },
    }
}

/// The caller joins a room by its identifier or an alias. There is no directory of aliases: one
/// that is well formed is unknown.
pub fn plan_join_by_id_or_alias(
    room_id_or_alias: &str,
    sender: &str,
    body: Option<&Json>,
    member: Result<Option<Event>, String>,
) -> (plan: Plan)
    ensures
        if valid_room_alias(room_id_or_alias@) {
            plan.is_error(NOT_FOUND, "M_NOT_FOUND"@, "No such room alias"@)
        } else if !valid_room_id(room_id_or_alias@) {
            plan.is_error(BAD_REQUEST, "M_INVALID_PARAM"@, room_id_complaint(room_id_or_alias@))
        } else {
            match member {
                Err(e) => plan.is_error(INTERNAL_SERVER_ERROR, "M_UNKNOWN"@, e@),
                Ok(event) => if content_text(event, "membership"@) == Some("join"@) {
                    plan.is_ok(text_member("room_id"@, room_id_or_alias@))
                } else {
                    plan.emits(sender@, sender@, "join"@, reason_in(body))
                },
            }
        },
{
    if is_room_alias(room_id_or_alias) {
        return Plan::Answer(error_response(NOT_FOUND, "M_NOT_FOUND", "No such room alias"));
    }
    plan_join(room_id_or_alias, sender, body, member)
}

/// Whether there is a membership to leave.
pub open spec fn can_leave(membership: Option<Seq<char>>) -> bool {
    membership == Some("invite"@) || membership == Some("join"@) || membership == Some("knock"@)
}

/// The caller leaves a room. From any membership but `invite`, `join` and `knock` there is nothing
/// to leave, and the request is answered at once.
pub fn plan_leave(
    room_id: &str,
    sender: &str,
    body: Option<&Json>,
    known: Result<bool, String>,
    member: Result<Option<Event>, String>,
) -> (plan: Plan)
    ensures
        if !valid_room_id(room_id@) {
            plan.is_error(BAD_REQUEST, "M_INVALID_PARAM"@, room_id_complaint(room_id@))
        } else {
            match known {
                Err(e) => plan.is_error(INTERNAL_SERVER_ERROR, "M_UNKNOWN"@, e@),
                Ok(false) => plan.is_error(NOT_FOUND, "M_NOT_FOUND"@, "Not a known room"@),
                Ok(true) => match member {
                    Err(e) => plan.is_error(INTERNAL_SERVER_ERROR, "M_UNKNOWN"@, e@),
                    Ok(event) => if can_leave(content_text(event, "membership"@)) {
                        plan.emits(sender@, sender@, "leave"@, reason_in(body))
                    } else {
                        plan.is_ok(JsonModel::Object(Seq::empty()))
                    },
                },
            }
        },
{
    match refuse_room_id(room_id) {
        Some(response) => return Plan::Answer(response),
        None => {},
    }
    match require_room(known) {
        Some(response) => return Plan::Answer(response),
        None => {},
    }
    match current_membership(member) {
        Err(response) => Plan::Answer(response),
        Ok(membership) => {
            if opt_is(&membership, "invite") || opt_is(&membership, "join") || opt_is(
                &membership,
                "knock",
            ) {
                emit(sender, sender, "leave", body)
            } else {
                Plan::Answer(Response::ok(Json::empty_object()))
            }
        },
    }
}

/// The caller invites, kicks or bans the user that the request names: the membership that the user
/// is to have is `invite`, `leave` or `ban`. The user is looked at first, then the room.
pub fn plan_targeted(
    room_id: &str,
    sender: &str,
    body: Option<&Json>,
    membership: &str,
) -> (plan: Plan)
    ensures
        match target_in(body) {
            None => plan.is_error(
                BAD_REQUEST,
                "M_MISSING_PARAM"@,
                "Missing required parameter: user_id"@,
            ),
            Some(user) => if !valid_user_id(user) {
                plan.is_error(BAD_REQUEST, "M_INVALID_PARAM"@, user_id_complaint(user))
            } else if !valid_room_id(room_id@) {
                plan.is_error(BAD_REQUEST, "M_INVALID_PARAM"@, room_id_complaint(room_id@))
            } else {
                plan.emits(sender@, user, membership@, reason_in(body))
            },
        },
{
    let target = match body_target(body) {
        Ok(target) => target,
        Err(response) => return Plan::Answer(response),
    };
    match refuse_room_id(room_id) {
        Some(response) => return Plan::Answer(response),
        None => {},
    }
    emit(sender, target.as_str(), membership, body)
}

/// The caller lifts the ban of the user that the request names. The user must be banned: leaving
/// would else be a kick.
pub fn plan_unban(
    room_id: &str,
    sender: &str,
    body: Option<&Json>,
    known: Result<bool, String>,
    member: Result<Option<Event>, String>,
) -> (plan: Plan)
    ensures
        match target_in(body) {
            None => plan.is_error(
                BAD_REQUEST,
                "M_MISSING_PARAM"@,
                "Missing required parameter: user_id"@,
            ),
            Some(user) => if !valid_user_id(user) {
                plan.is_error(BAD_REQUEST, "M_INVALID_PARAM"@, user_id_complaint(user))
            } else if !valid_room_id(room_id@) {
                plan.is_error(BAD_REQUEST, "M_INVALID_PARAM"@, room_id_complaint(room_id@))
            } else {
                match known {
                    Err(e) => plan.is_error(INTERNAL_SERVER_ERROR, "M_UNKNOWN"@, e@),
                    Ok(false) => plan.is_error(NOT_FOUND, "M_NOT_FOUND"@, "Not a known room"@),
                    Ok(true) => match member {
                        Err(e) => plan.is_error(INTERNAL_SERVER_ERROR, "M_UNKNOWN"@, e@),
                        Ok(event) => if content_text(event, "membership"@) == Some("ban"@) {
                            plan.emits(sender@, user, "leave"@, reason_in(body))
                        } else {
                            plan.is_error(
                                FORBIDDEN,
                                "M_BAD_STATE"@,
                                "Cannot unban a user who is not banned"@,
                            )
                        },
                    },
                }
            },
        },
{
    let target = match body_target(body) {
        Ok(target) => target,
        Err(response) => return Plan::Answer(response),
    };
    match refuse_room_id(room_id) {
        Some(response) => return Plan::Answer(response),
        None => {},
    }
    match require_room(known) {
        Some(response) => return Plan::Answer(response),
        None => {},
    }
    match current_membership(member) {
        Err(response) => Plan::Answer(response),
        Ok(membership) => {
            if opt_is(&membership, "ban") {
                emit(sender, target.as_str(), "leave", body)
            } else {
                Plan::Answer(
                    error_response(
                        FORBIDDEN,
                        "M_BAD_STATE",
                        "Cannot unban a user who is not banned",
                    ),
                )
            }
        },
    }
}

/// Whether a join goes to the servers that the request names as residents: it names some, and the
/// room is not hosted here. Where the store cannot tell, it does not.
pub fn joins_by_federation(candidates: &Vec<String>, known: &Result<bool, String>) -> (yes: bool)
    ensures
        yes <==> candidates@.len() > 0 && *known == Ok::<bool, String>(false),
{
    match known {
        Ok(known) => candidates.len() > 0 && !*known,
        Err(_) => false,
    }
}

/// Whether a leave is the rejection of an invite with the inviting server: the room is not hosted
/// here, and all that is held of it is a stub. Where the store cannot tell, it is not.
pub fn leaves_by_federation<S>(
    known: &Result<bool, String>,
    stub: &Result<Option<S>, String>,
) -> (yes: bool)
    ensures
        yes <==> *known == Ok::<bool, String>(false) && (stub matches Ok(held) && held is Some),
{
    match (known, stub) {
        (Ok(known), Ok(stub)) => !*known && stub.is_some(),
        _ => false,
    }
}

/// Whether an invite goes to the server of the one invited, and to which: that server is another
/// than this one.
pub fn invites_by_federation(target: &str, our_server: &str) -> (server: Option<String>)
    ensures
        server is Some <==> valid_user_id(target@) && server_part(target@) != our_server@,
        server matches Some(server) ==> server@ == server_part(target@),
{
    match user_server(target) {
        Some(server) => {
            if same_text(server.as_str(), our_server) {
                None
            } else {
                Some(server)
            }
        },
        None => None,
    }
}

/// What a request is answered whose event the room's actor took, or did not: a join with the room,
/// the others with nothing.
pub fn answer_emitted(joined_room: Option<&str>, sent: Result<(), RoomActorError>) -> (response:
    Response)
    ensures
        match sent {
            Err(e) => response.is_error(e.status(), e.errcode(), e.text()),
            Ok(_) => response.is(
                OK,
                match joined_room {
                    Some(room_id) => text_member("room_id"@, room_id@),
                    None => JsonModel::Object(Seq::empty()),
                },
            ),
        },
{
    match sent {
        Err(e) => room_actor_response(&e),
        Ok(_) => match joined_room {
            Some(room_id) => Response::ok(Json::single("room_id", Json::string(room_id))),
            None => Response::ok(Json::empty_object()),
        },
    }
}

/// Whether a plan is a member event by one user about another, with a membership and a reason: what
/// the room's actor is then handed.
pub open spec fn is_member_event(
    plan: Plan,
    sender: Seq<char>,
    user: Seq<char>,
    membership: Seq<char>,
    reason: Option<Seq<char>>,
) -> bool {
    plan matches Plan::Emit(d) && {
        &&& d.sender@ == sender
        &&& d.event_type@ == "m.room.member"@
        &&& d.state_key is Some && d.state_key->0@ == user
        &&& d.content.model().text_at("membership"@) == Some(membership)
        &&& d.content.model().text_at("reason"@) == reason
    }
}

/// Whether a plan is an answer with a status.
pub open spec fn is_answer(plan: Plan, status: u16) -> bool {
    plan matches Plan::Answer(response) && response.status == status
}

proof fn emitted_is_member_event(
    plan: Plan,
    sender: Seq<char>,
    user: Seq<char>,
    membership: Seq<char>,
    reason: Option<Seq<char>>,
)
    requires
        plan.emits(sender, user, membership, reason),
    ensures
        is_member_event(plan, sender, user, membership, reason),
{
    let d = plan->Emit_0;
    assert(d@.sender == d.sender@ && d@.event_type == d.event_type@);
    assert(opt_text(d.state_key) == d@.state_key);
    reveal_strlit("membership");
    reveal_strlit("reason");
    assert("membership"@.len() == 10 && "reason"@.len() == 6);
    let members = member_content(membership, reason)->Object_0;
    member_position_is(members, "membership"@, 0, 0);
    member_position_is(members, "reason"@, 0, 1);
}

/// The membership that was read of a user, if there is one.
pub open spec fn membership_read(member: Result<Option<Event>, String>) -> Option<Seq<char>> {
    match member {
        Ok(Some(event)) => event@.content.text_at("membership"@),
        _ => None,
    }
}

/// Joining is by the user and for the user: whoever is not joined yet gets a join of their own, with
/// the reason they give, whatever they were before; whether they may is for the room to say. One who
/// is joined is answered at once with the room.
pub proof fn joins_unless_joined(
    room_id: &str,
    sender: &str,
    body: Option<&Json>,
    member: Result<Option<Event>, String>,
    plan: Plan,
)
    requires
        call_ensures(plan_join, (room_id, sender, body, member), plan),
    ensures
        valid_room_id(room_id@) && member is Ok && membership_read(member) != Some("join"@)
            ==> is_member_event(plan, sender@, sender@, "join"@, reason_in(body)),
        valid_room_id(room_id@) && membership_read(member) == Some("join"@) ==> is_answer(plan, 200),
        plan matches Plan::Answer(response) ==> (response.status == 200
            ==> response.body.model().text_at("room_id"@) == Some(room_id@)),
        !valid_room_id(room_id@) ==> is_answer(plan, 400),
        valid_room_id(room_id@) && member is Err ==> is_answer(plan, 500),
{
    text_member_is_read("room_id"@, room_id@);
    if plan is Emit {
        emitted_is_member_event(plan, sender@, sender@, "join"@, reason_in(body));
    }
}

/// By its identifier a room is joined as by the other request; an alias is unknown.
pub proof fn alias_is_unknown(
    room: &str,
    sender: &str,
    body: Option<&Json>,
    member: Result<Option<Event>, String>,
    plan: Plan,
)
    requires
        call_ensures(plan_join_by_id_or_alias, (room, sender, body, member), plan),
    ensures
        valid_room_alias(room@) ==> is_answer(plan, 404),
        !valid_room_alias(room@) && valid_room_id(room@) && member is Ok && membership_read(member)
            != Some("join"@) ==> is_member_event(plan, sender@, sender@, "join"@, reason_in(body)),
        !valid_room_alias(room@) && !valid_room_id(room@) ==> is_answer(plan, 400),
{
    if plan is Emit {
        emitted_is_member_event(plan, sender@, sender@, "join"@, reason_in(body));
    }
}

/// One can leave what one is invited to, is joined to, or knocks at: the user's own leave goes out.
/// From anywhere else there is nothing to leave, and the answer is success without an event.
pub proof fn leaves_what_there_is_to_leave(
    room_id: &str,
    sender: &str,
    body: Option<&Json>,
    known: Result<bool, String>,
    member: Result<Option<Event>, String>,
    plan: Plan,
)
    requires
        call_ensures(plan_leave, (room_id, sender, body, known, member), plan),
    ensures
        valid_room_id(room_id@) && known == Ok::<bool, String>(true) && member is Ok ==> {
            let now = membership_read(member);
            if now == Some("invite"@) || now == Some("join"@) || now == Some("knock"@) {
                is_member_event(plan, sender@, sender@, "leave"@, reason_in(body))
            } else {
                is_answer(plan, 200)
            }
        },
        !valid_room_id(room_id@) ==> is_answer(plan, 400),
        valid_room_id(room_id@) && known == Ok::<bool, String>(false) ==> is_answer(plan, 404),
        valid_room_id(room_id@) && known is Err ==> is_answer(plan, 500),
        valid_room_id(room_id@) && known == Ok::<bool, String>(true) && member is Err ==> is_answer(
            plan,
            500,
        ),
{
    if plan is Emit {
        emitted_is_member_event(plan, sender@, sender@, "leave"@, reason_in(body));
    }
}

/// An invite, a kick and a ban are by the one who asks, about the one who is named, to the membership
/// that is meant, with the reason that is given; a request that names no one is refused.
pub proof fn targets_whom_is_named(
    room_id: &str,
    sender: &str,
    body: Option<&Json>,
    membership: &str,
    plan: Plan,
)
    requires
        call_ensures(plan_targeted, (room_id, sender, body, membership), plan),
    ensures
        ({
            let named = match body {
                Some(body) => body.model().text_at("user_id"@),
                None => None,
            };
            if named is Some && valid_user_id(named->0) && valid_room_id(room_id@) {
                is_member_event(plan, sender@, named->0, membership@, reason_in(body))
            } else {
                is_answer(plan, 400)
            }
        }),
{
    if plan is Emit {
        emitted_is_member_event(
            plan,
            sender@,
            target_in(body)->0,
            membership@,
            reason_in(body),
        );
    }
}

/// Only a ban is lifted: one who is banned gets a leave; unbanning anyone else, which would be a
/// kick, is refused with 403.
pub proof fn only_a_ban_is_lifted(
    room_id: &str,
    sender: &str,
    body: Option<&Json>,
    known: Result<bool, String>,
    member: Result<Option<Event>, String>,
    plan: Plan,
)
    requires
        call_ensures(plan_unban, (room_id, sender, body, known, member), plan),
    ensures
        ({
            let named = match body {
                Some(body) => body.model().text_at("user_id"@),
                None => None,
            };
            if named is Some && valid_user_id(named->0) && valid_room_id(room_id@) {
                &&& known == Ok::<bool, String>(false) ==> is_answer(plan, 404)
                &&& known is Err ==> is_answer(plan, 500)
                &&& known == Ok::<bool, String>(true) && member is Err ==> is_answer(plan, 500)
                &&& known == Ok::<bool, String>(true) && membership_read(member) == Some("ban"@)
                    ==> is_member_event(plan, sender@, named->0, "leave"@, reason_in(body))
                &&& known == Ok::<bool, String>(true) && member is Ok && membership_read(member)
                    != Some("ban"@) ==> is_answer(plan, 403)
            } else {
                is_answer(plan, 400)
            }
        }),
{
    if plan is Emit {
        emitted_is_member_event(plan, sender@, target_in(body)->0, "leave"@, reason_in(body));
    }
}

/// The reason that a request gives is passed on as it is, and none is made up.
pub proof fn reason_is_as_given(body: Option<&Json>)
    ensures
        body is None ==> reason_in(body) is None,
        body matches Some(json) ==> reason_in(body) == json.model().text_at("reason"@),
{
}

/// A request whose event the room took is answered 200, a join with the room; one that it refused is
/// not.
pub proof fn answered_as_taken(
    joined_room: Option<&str>,
    sent: Result<(), RoomActorError>,
    response: Response,
)
    requires
        call_ensures(answer_emitted, (joined_room, sent), response),
    ensures
        response.status == 200 <==> sent is Ok,
        sent is Ok ==> (joined_room matches Some(room_id) ==> response.body.model().text_at(
            "room_id"@,
        ) == Some(room_id@)),
        sent == Err::<(), RoomActorError>(RoomActorError::Rejected) ==> response.status == 403,
        sent == Err::<(), RoomActorError>(RoomActorError::UnknownRoom) ==> response.status == 404,
{
    if let Some(room_id) = joined_room {
        text_member_is_read("room_id"@, room_id@);
    }
}

/// Other servers are asked only for rooms and users of theirs: a join where the room is not hosted
/// here and someone who hosts it is named; a leave where all that is held is an invite; an invite
/// where the one invited lives elsewhere, and then that server is the one.
pub proof fn others_are_asked_only_for_theirs(
    candidates: Vec<String>,
    known: Result<bool, String>,
    stub: Result<Option<Event>, String>,
    target: &str,
    our_server: &str,
    joins: bool,
    leaves: bool,
    server: Option<String>,
)
    requires
        call_ensures(joins_by_federation, (&candidates, &known), joins),
        call_ensures(leaves_by_federation::<Event>, (&known, &stub), leaves),
        call_ensures(invites_by_federation, (target, our_server), server),
    ensures
        known == Ok::<bool, String>(true) || known is Err ==> !joins && !leaves,
        known == Ok::<bool, String>(false) ==> joins == (candidates@.len() > 0),
        known == Ok::<bool, String>(false) ==> leaves == (stub is Ok && stub->Ok_0 is Some),
        server is None <==> !valid_user_id(target@) || server_part(target@) == our_server@,
        server matches Some(server) ==> server@ == server_part(target@) && server@ != our_server@,
{
}

/// A request about a user must name one: by an identifier, in `user_id`. One that names none is told
/// that it is missing, one that is no identifier that it is invalid.
pub proof fn target_must_be_named(body: Json, target: Result<String, Response>)
    requires
        call_ensures(body_target, (Some(&body),), target),
    ensures
        target is Ok <==> (body.model().get("user_id"@) matches Some(JsonModel::Str(user))
            && valid_user_id(user)),
        target matches Ok(user) ==> body.model().get("user_id"@) == Some(JsonModel::Str(user@)),
        target matches Err(response) ==> response.status == 400,
        target matches Err(response) ==> response.body.model().text_at("errcode"@) == if
            body.model().text_at("user_id"@) is Some {
            Some("M_INVALID_PARAM"@)
        } else {
            Some("M_MISSING_PARAM"@)
        },
{
    if let Some(user) = body.model().text_at("user_id"@) {
        error_is_read("M_INVALID_PARAM"@, user_id_complaint(user));
    }
    error_is_read("M_MISSING_PARAM"@, "Missing required parameter: user_id"@);
}

/// The membership of a user is what the content of their member event says; without an event there is
/// none; where the store fails the server is at fault.
pub proof fn membership_is_read(
    member: Result<Option<Event>, String>,
    membership: Result<Option<String>, Response>,
)
    requires
        call_ensures(current_membership, (member,), membership),
    ensures
        membership is Ok <==> member is Ok,
        membership matches Err(response) ==> response.status == 500,
        member == Ok::<Option<Event>, String>(None) ==> membership->Ok_0 is None,
        member matches Ok(Some(event)) ==> opt_text(membership->Ok_0)
            == event.content.model().text_at("membership"@),
{
}

/// A room that is not known is answered 404; where the store cannot tell, the server is at fault.
pub proof fn room_must_be_known(known: Result<bool, String>, refusal: Option<Response>)
    requires
        call_ensures(require_room, (known,), refusal),
    ensures
        refusal is None <==> known == Ok::<bool, String>(true),
        known == Ok::<bool, String>(false) ==> refusal->0.status == 404,
        known is Err ==> refusal is Some && refusal->0.status == 500,
{
}

} // verus!
