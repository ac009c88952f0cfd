//! `GET /_matrix/federation/v1/make_join/{roomId}/{userId}`: the first half of the federated join,
//! where this server is the resident. The answer is a template of the membership event, built on
//! the room's heads; nothing is stored.

use vstd::prelude::*;

use crate::backfill::{pair_key, pair_value, split_pair};
use crate::event::{opt_is, opt_text, Event};
use crate::ids::{is_room_id, is_user_id, valid_room_id, valid_user_id, ROOM_VERSION_ID};
use crate::json::Json;
use crate::response::FedError;
use crate::room_actor::RoomActorError;
use crate::rooms::{draft_of, text_member, text_member_is_read, Draft};
use crate::text::{
    char_views, chars_of, first_separator_cuts, pieces_are_between_separators, same_text, split,
    split_on,
};

verus! {

/// Whether a query offers a version.
pub open spec fn offers(query: Option<&str>, version: Seq<char>) -> bool {
    match query {
        None => false,
        Some(raw) => exists|i: int|
            0 <= i < split(raw@, '&').len() && pair_key(#[trigger] split(raw@, '&')[i]) == "ver"@
                && pair_value(split(raw@, '&')[i]) == version,
    }
}

/// Whether the repeated `ver` of a query includes a version. Without any `ver` the query offers
/// the first version alone, which is never this server's.
pub fn ver_includes(query: Option<&str>, version: &str) -> (yes: bool)
    ensures
        yes == offers(query, version@),
{
    let raw = match query {
        Some(raw) => raw,
        None => return false,
    };
    let pairs = split_on(&chars_of(raw), '&');
    let ghost all = split(raw@, '&');
    let mut i: usize = 0;
    while i < pairs.len()
        invariant
            i <= pairs.len(),
            query matches Some(q) && q@ == raw@,
            all == split(raw@, '&'),
            all == char_views(pairs@),
            forall|k: int|
                0 <= k < i ==> !(pair_key(#[trigger] all[k]) == "ver"@ && pair_value(all[k])
                    == version@),
        decreases pairs.len() - i,
    {
        let (key, value) = split_pair(&pairs[i]);
        assert(all[i as int] == pairs@[i as int]@);
        if same_text(key.as_str(), "ver") && same_text(value.as_str(), version) {
            return true;
        }
        i += 1;
    }
    false
}

/// Whether the query includes this server's version.
pub fn ver_includes_ours(query: Option<&str>) -> (yes: bool)
    ensures
        yes == offers(query, ROOM_VERSION_ID@),
{
    ver_includes(query, ROOM_VERSION_ID)
}

/// A text in the content of an event that may be absent.
pub open spec fn content_text(event: Option<Event>, key: Seq<char>) -> Option<Seq<char>> {
    match event {
        Some(event) => event@.content.text_at(key),
        None => None,
    }
}

fn content_of(event: &Option<Event>, key: &str) -> (text: Option<String>)
    ensures
        opt_text(text) == content_text(*event, key@),
{
    match event {
        Some(event) => match event.content_str(key) {
            Some(text) => Some(text.clone()),
            None => None,
        },
        None => None,
    }
}

/// Why a user may not join, if so: by the user's membership and the room's join rule, which is
/// `invite` where none is set. One who was banned may not; a public room takes anyone; an
/// invite-only room takes those invited, and those who joined before; other rules are not
/// supported.
pub open spec fn join_refusal(membership: Option<Seq<char>>, join_rule: Option<Seq<char>>) -> Option<
    Seq<char>,
> {
    let rule = match join_rule {
        Some(rule) => rule,
        None => "invite"@,
    };
    if membership == Some("ban"@) {
        Some("user is banned from the room"@)
    } else if rule == "public"@ {
        None
    } else if rule == "invite"@ {
        if membership == Some("invite"@) || membership == Some("join"@) {
            None
        } else {
            Some("you are not invited to this room"@)
        }
    } else {
        Some("this room's join rule is not supported"@)
    }
}

/// Join-rules pre-check, on the user's member event and the room's join rules as they were read.
pub fn check_can_join(
    member: Result<Option<Event>, String>,
    join_rules: Result<Option<Event>, String>,
) -> (checked: Result<(), FedError>)
    ensures
        match member {
            Err(e) => checked == Err::<(), FedError>(FedError::Storage(e)),
            Ok(member) => if content_text(member, "membership"@) == Some("ban"@) {
                checked matches Err(FedError::Forbidden(m)) && m@ == "user is banned from the room"@
            } else {
                match join_rules {
                    Err(e) => checked == Err::<(), FedError>(FedError::Storage(e)),
                    Ok(rules) => match join_refusal(
                        content_text(member, "membership"@),
                        content_text(rules, "join_rule"@),
                    ) {
                        Some(refusal) => checked matches Err(FedError::Forbidden(m)) && m@
                            == refusal,
                        None => checked is Ok,
                    },
                }
            },
        },
{
    let member = match member {
        Ok(member) => member,
        Err(e) => return Err(FedError::Storage(e)),
    };
    let membership = content_of(&member, "membership");
    if opt_is(&membership, "ban") {
        return Err(FedError::Forbidden("user is banned from the room"));
    }
    let rules = match join_rules {
        Ok(rules) => rules,
        Err(e) => return Err(FedError::Storage(e)),
    };
    let rule = match content_of(&rules, "join_rule") {
        Some(rule) => rule,
        None => "invite".to_owned(),
    };
    if same_text(rule.as_str(), "public") {
        Ok(())
    } else if same_text(rule.as_str(), "invite") {
        if opt_is(&membership, "invite") || opt_is(&membership, "join") {
            Ok(())
        } else {
            Err(FedError::Forbidden("you are not invited to this room"))
        }
    } else {
        Err(FedError::Forbidden("this room's join rule is not supported"))
    }
}

/// What a failure to build a template is answered.
pub fn map_build_err(err: RoomActorError) -> (error: FedError)
    ensures
        match err {
            RoomActorError::UnknownRoom => error is RoomNotFound,
            RoomActorError::Storage(e) => error == FedError::Storage(e),
            _ => error matches FedError::Internal(m) && m@ == "could not build membership template"@,
        },
{
    match err {
        RoomActorError::UnknownRoom => FedError::RoomNotFound,
        RoomActorError::Storage(e) => FedError::Storage(e),
        _ => FedError::Internal("could not build membership template"),
    }
}

/// Checks the identifiers of a request for a template: the room's first.
pub fn check_template_ids(room_id: &str, user_id: &str) -> (checked: Result<(), FedError>)
    ensures
        if !valid_room_id(room_id@) {
            checked matches Err(FedError::BadRequest(m)) && m@ == "invalid room_id"@
        } else if !valid_user_id(user_id@) {
            checked matches Err(FedError::BadRequest(m)) && m@ == "invalid user_id"@
        } else {
            checked is Ok
        },
{
    if !is_room_id(room_id) {
        return Err(FedError::BadRequest("invalid room_id"));
    }
    if !is_user_id(user_id) {
        return Err(FedError::BadRequest("invalid user_id"));
    }
    Ok(())
}

/// The draft of a user's own membership event: the user authors it, and it is about the user.
pub fn membership_draft(user_id: &str, membership: &str) -> (draft: Draft)
    ensures
        draft@ == crate::rooms::draft(
            user_id@,
            "m.room.member"@,
            user_id@,
            text_member("membership"@, membership@),
        ),
{
    let content = Json::single("membership", Json::string(membership));
    draft_of(user_id, "m.room.member", user_id, content)
}

/// What is built for a request, once its identifiers are known to be good: the template of a join,
/// where the room exists, the requester speaks its version, and the user may join.
pub fn plan_make_join(
    user_id: &str,
    query: Option<&str>,
    room_version: Result<Option<String>, String>,
    member: Result<Option<Event>, String>,
    join_rules: Result<Option<Event>, String>,
) -> (plan: Result<Draft, FedError>)
    ensures
        match room_version {
            Err(e) => plan == Err::<Draft, FedError>(FedError::Storage(e)),
            Ok(None) => plan == Err::<Draft, FedError>(FedError::RoomNotFound),
            Ok(Some(_)) => if !offers(query, ROOM_VERSION_ID@) {
                plan matches Err(FedError::IncompatibleRoomVersion(v)) && v@ == ROOM_VERSION_ID@
            } else {
                match member {
                    Err(e) => plan == Err::<Draft, FedError>(FedError::Storage(e)),
                    Ok(member) => if content_text(member, "membership"@) == Some("ban"@) {
                        plan matches Err(FedError::Forbidden(m)) && m@
                            == "user is banned from the room"@
                    } else {
                        match join_rules {
                            Err(e) => plan == Err::<Draft, FedError>(FedError::Storage(e)),
                            Ok(rules) => match join_refusal(
                                content_text(member, "membership"@),
                                content_text(rules, "join_rule"@),
                            ) {
                                Some(refusal) => plan matches Err(FedError::Forbidden(m)) && m@
                                    == refusal,
                                None => plan is Ok && plan->Ok_0@ == crate::rooms::draft(
                                    user_id@,
                                    "m.room.member"@,
                                    user_id@,
                                    text_member("membership"@, "join"@),
                                ),
                            },
                        }
                    },
                }
            },
        },
{
    match room_version {
        Err(e) => return Err(FedError::Storage(e)),
        Ok(None) => return Err(FedError::RoomNotFound),
        Ok(Some(_)) => {},
    }
    if !ver_includes_ours(query) {
        return Err(FedError::IncompatibleRoomVersion(ROOM_VERSION_ID.to_owned()));
    }
    match check_can_join(member, join_rules) {
        Ok(_) => Ok(membership_draft(user_id, "join")),
        Err(e) => Err(e),
    }
}

/// The answer to a request for a template: the template as it travels, and the room's version.
#[derive(Debug, PartialEq, Eq)]
pub struct TemplateAnswer {
    pub event: String,
    pub room_version: String,
}

/// Answers a request for a template with what was built.
pub fn answer_template(built: Result<Event, RoomActorError>, room_version: &str) -> (answer: Result<
    TemplateAnswer,
    FedError,
>)
    ensures
        match built {
            Ok(event) => answer is Ok && answer->Ok_0.event@ == event@.raw
                && answer->Ok_0.room_version@ == room_version@,
            Err(RoomActorError::UnknownRoom) => answer == Err::<TemplateAnswer, FedError>(
                FedError::RoomNotFound,
            ),
            Err(RoomActorError::Storage(e)) => answer == Err::<TemplateAnswer, FedError>(
                FedError::Storage(e),
            ),
            Err(_) => answer matches Err(FedError::Internal(m)) && m@
                == "could not build membership template"@,
        },
{
    match built {
        Ok(event) => Ok(
            TemplateAnswer { event: event.raw, room_version: room_version.to_owned() },
        ),
        Err(e) => Err(map_build_err(e)),
    }
}

/// Whatever the join rule says, one who was banned may not join.
pub proof fn banned_never_join(join_rule: Option<Seq<char>>)
    ensures
        join_refusal(Some("ban"@), join_rule) == Some("user is banned from the room"@),
{
}

/// One who was invited may join a public room and an invite-only one, and a room without a join
/// rule takes no one else.
pub proof fn invited_may_join(join_rule: Option<Seq<char>>)
    requires
        join_rule is None || join_rule == Some("invite"@) || join_rule == Some("public"@),
    ensures
        join_refusal(Some("invite"@), join_rule) is None,
        join_rule is None ==> join_refusal(None, join_rule) is Some,
{
    reveal_strlit("ban");
    reveal_strlit("invite");
    reveal_strlit("public");
    assert("ban"@.len() != "invite"@.len());
    assert("public"@[0] != "invite"@[0]);
}

/// Who may join: no one who is banned; anyone into a public room; into an invite-only room, which a
/// room without a rule is too, those who are invited and those who are joined; no one into a room
/// with any other rule.
pub proof fn who_may_join(membership: Option<Seq<char>>, join_rule: Option<Seq<char>>)
    ensures
        join_refusal(membership, join_rule) is None <==> {
            &&& membership != Some("ban"@)
            &&& {
                ||| join_rule == Some("public"@)
                ||| (join_rule is None || join_rule == Some("invite"@)) && (membership == Some(
                    "invite"@,
                ) || membership == Some("join"@))
            }
        },
{
    reveal_strlit("public");
    reveal_strlit("invite");
    assert("public"@[0] != "invite"@[0]);
}

/// What the check lets through is what the rules let through; a refusal by them is 403.
pub proof fn check_follows_the_rules(
    member: Option<Event>,
    join_rules: Option<Event>,
    checked: Result<(), FedError>,
)
    requires
        call_ensures(check_can_join, (Ok(member), Ok(join_rules)), checked),
    ensures
        ({
            let membership = match member {
                Some(event) => event@.content.text_at("membership"@),
                None => None,
            };
            let rule = match join_rules {
                Some(event) => event@.content.text_at("join_rule"@),
                None => None,
            };
            &&& checked is Ok <==> join_refusal(membership, rule) is None
            &&& checked is Err ==> checked->Err_0 is Forbidden
        }),
{
    who_may_join(content_text(member, "membership"@), content_text(join_rules, "join_rule"@));
}

/// A template of a join is given exactly where the room is known, its version is offered, and the
/// user may join; it is the user's own join.
pub proof fn template_of_own_join(
    user_id: &str,
    query: Option<&str>,
    room_version: Result<Option<String>, String>,
    member: Result<Option<Event>, String>,
    join_rules: Result<Option<Event>, String>,
    plan: Result<Draft, FedError>,
)
    requires
        call_ensures(plan_make_join, (user_id, query, room_version, member, join_rules), plan),
    ensures
        plan is Ok <==> {
            &&& room_version is Ok && room_version->Ok_0 is Some
            &&& offers(query, ROOM_VERSION_ID@)
            &&& member is Ok && join_rules is Ok
            &&& join_refusal(
                content_text(member->Ok_0, "membership"@),
                content_text(join_rules->Ok_0, "join_rule"@),
            ) is None
        },
        plan matches Ok(d) ==> d@.sender == user_id@ && d@.event_type == "m.room.member"@
            && d@.state_key == Some(user_id@) && d@.content.text_at("membership"@) == Some("join"@),
        room_version matches Ok(None) ==> plan == Err::<Draft, FedError>(FedError::RoomNotFound),
        room_version is Ok && room_version->Ok_0 is Some && !offers(query, ROOM_VERSION_ID@) ==> (
        plan matches Err(FedError::IncompatibleRoomVersion(_))),
{
    text_member_is_read("membership"@, "join"@);
    if member is Ok && join_rules is Ok {
        who_may_join(
            content_text(member->Ok_0, "membership"@),
            content_text(join_rules->Ok_0, "join_rule"@),
        );
    }
}

/// The requester gets the template that was built, as it travels, and the version it is of.
pub proof fn template_is_answered(event: Event, room_version: &str, answer: Result<TemplateAnswer, FedError>)
    requires
        call_ensures(answer_template, (Ok(event), room_version), answer),
    ensures
        answer is Ok,
        answer->Ok_0.event@ == event.raw@,
        answer->Ok_0.room_version@ == room_version@,
{
}

/// A template that could not be built fails by its kind: for an unknown room, for the store, or for
/// this server.
pub proof fn template_fails_by_kind(
    failed: RoomActorError,
    room_version: &str,
    answer: Result<TemplateAnswer, FedError>,
)
    requires
        call_ensures(answer_template, (Err(failed), room_version), answer),
    ensures
        answer is Err,
        answer->Err_0 is RoomNotFound <==> failed is UnknownRoom,
        answer->Err_0 is Storage <==> failed is Storage,
        failed matches RoomActorError::Storage(e) ==> answer->Err_0->Storage_0 == e,
        answer->Err_0 is Internal <==> !(failed is UnknownRoom) && !(failed is Storage),
{
}

proof fn one_pair_offers(query: &str, version: Seq<char>)
    requires
        !query@.contains('&'),
    ensures
        offers(Some(query), version) <==> pair_key(query@) == "ver"@ && pair_value(query@)
            == version,
{
    pieces_are_between_separators(query@, '&', Seq::empty());
    let pairs = split(query@, '&');
    assert(pairs.len() == 1 && pairs[0] == query@);
    if offers(Some(query), version) {
        let i = choose|i: int|
            0 <= i < pairs.len() && pair_key(#[trigger] pairs[i]) == "ver"@ && pair_value(pairs[i])
                == version;
        assert(i == 0);
    }
    if pair_key(query@) == "ver"@ && pair_value(query@) == version {
        let asked = Some(query);
        assert(split(asked->Some_0@, '&')[0] == query@);
    }
}

/// A query offers what its parts offer, however many there are.
pub proof fn each_part_offers(all: &str, first: &str, rest: &str, version: Seq<char>)
    requires
        all@ == first@.push('&') + rest@,
        !first@.contains('&'),
    ensures
        offers(Some(all), version) <==> offers(Some(first), version) || offers(Some(rest), version),
        !offers(None, version),
{
    pieces_are_between_separators(first@, '&', rest@);
    let pairs = split(all@, '&');
    let later = split(rest@, '&');
    assert(pairs =~= seq![first@] + later);
    one_pair_offers(first, version);
    if offers(Some(first), version) {
        let asked = Some(all);
        assert(split(asked->Some_0@, '&')[0] == first@);
    }
    if offers(Some(rest), version) {
        let i = choose|i: int|
            0 <= i < later.len() && pair_key(#[trigger] later[i]) == "ver"@ && pair_value(later[i])
                == version;
        let asked = Some(all);
        assert(split(asked->Some_0@, '&')[i + 1] == later[i]);
    }
    if offers(Some(all), version) {
        let i = choose|i: int|
            0 <= i < pairs.len() && pair_key(#[trigger] pairs[i]) == "ver"@ && pair_value(pairs[i])
                == version;
        if i > 0 {
            let asked = Some(rest);
            assert(split(asked->Some_0@, '&')[i - 1] == pairs[i]);
        }
    }
}

/// A single pair offers a version if it is called `ver` and the version is its value.
pub proof fn pair_offers_its_value(
    query: &str,
    key: Seq<char>,
    value: Seq<char>,
    version: &str,
    yes: bool,
)
    requires
        call_ensures(ver_includes, (Some(query), version), yes),
        query@ == key.push('=') + value,
        !key.contains('='),
        !query@.contains('&'),
    ensures
        yes <==> key == "ver"@ && value == version@,
{
    first_separator_cuts(key, '=', value);
    one_pair_offers(query, version@);
}

} // verus!
