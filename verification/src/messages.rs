//! `GET /_matrix/client/v3/rooms/{roomId}/messages`: the history of a room, page by page.

use vstd::prelude::*;
use vstd::string::StringExecFns;

use crate::event::{opt_is, Event};
use crate::ids::{room_id_complaint, valid_room_id};
use crate::json::{member_position_is, models, Json, JsonModel};
use crate::make_join::content_text;
use crate::membership::current_membership;
use crate::response::{error_response, Response, BAD_REQUEST, FORBIDDEN, INTERNAL_SERVER_ERROR, OK};
use crate::rooms::{refuse_room_id, storage_failed};
use crate::store::Direction;
use crate::text::{
    bounded_number, decimal, decimal_text, number, number_of_decimal, parse_number, same_text,
};

verus! {

/// How many events a page has where the request does not say.
pub const DEFAULT_LIMIT: usize = 10;

/// The most events that a page has.
pub const MAX_LIMIT: usize = 1000;

/// The last position that a token may name.
pub const LAST_POSITION: u64 = 0x7fff_ffff_ffff_ffff;

/// The view of an optional text.
pub open spec fn opt_view(text: Option<&str>) -> Option<Seq<char>> {
    match text {
        Some(text) => Some(text@),
        None => None,
    }
}

/// The direction that a request names: forward where it names none.
pub open spec fn dir_named(dir: Option<Seq<char>>) -> Option<Direction> {
    match dir {
        None => Some(Direction::Forward),
        Some(name) => if name == "b"@ {
            Some(Direction::Backward)
        } else if name == "f"@ {
            Some(Direction::Forward)
        } else {
            None
        },
    }
}

/// Parse `dir`. Only `b` and `f` are accepted.
pub fn parse_dir(dir: Option<&str>) -> (parsed: Result<Direction, Response>)
    ensures
        match dir_named(opt_view(dir)) {
            Some(direction) => parsed == Ok::<Direction, Response>(direction),
            None => parsed is Err && parsed->Err_0.is_error(
                BAD_REQUEST,
                "M_INVALID_PARAM"@,
                "dir must be 'b' or 'f', got '"@ + dir->0@ + "'"@,
            ),
        },
{
    let name = match dir {
        None => return Ok(Direction::Forward),
        Some(name) => name,
    };
    if same_text(name, "b") {
        Ok(Direction::Backward)
    } else if same_text(name, "f") {
        Ok(Direction::Forward)
    } else {
        let message = "dir must be 'b' or 'f', got '".to_owned().concat(name).concat("'");
        Err(error_response(BAD_REQUEST, "M_INVALID_PARAM", message.as_str()))
    }
}

/// The position that a token names: none (inside) where it is absent, empty, or the sentinel
/// `END`; nothing where it is malformed.
pub open spec fn token_position(token: Option<Seq<char>>) -> Option<Option<nat>> {
    match token {
        None => Some(None),
        Some(token) => if token == ""@ || token == "END"@ {
            Some(None)
        } else {
            match bounded_number(token, LAST_POSITION as nat) {
                Some(n) => Some(Some(n)),
                None => None,
            }
        },
    }
}

/// The view of an optional position.
pub open spec fn opt_position(position: Option<u64>) -> Option<nat> {
    match position {
        Some(n) => Some(n as nat),
        None => None,
    }
}

/// Parse a pagination token. `key` is the parameter's name.
pub fn parse_token(token: Option<&str>, key: &str) -> (parsed: Result<Option<u64>, Response>)
    ensures
        match token_position(opt_view(token)) {
            Some(position) => parsed is Ok && opt_position(parsed->Ok_0) == position,
            None => parsed is Err && parsed->Err_0.is_error(
                BAD_REQUEST,
                "M_INVALID_PARAM"@,
                "'"@ + key@ + "' parameter is invalid"@,
            ),
        },
{
    let token = match token {
        None => return Ok(None),
        Some(token) => token,
    };
    if same_text(token, "") || same_text(token, "END") {
        return Ok(None);
    }
    match parse_number(token, LAST_POSITION) {
        Some(n) => Ok(Some(n)),
        None => {
            let message = "'".to_owned().concat(key).concat("' parameter is invalid");
            Err(error_response(BAD_REQUEST, "M_INVALID_PARAM", message.as_str()))
        },
    }
}

/// How many events a page has: 10 where the request does not say, and at most 1000.
pub open spec fn page_size(limit: Option<Seq<char>>) -> Option<nat> {
    match limit {
        None => Some(DEFAULT_LIMIT as nat),
        Some(limit) => match bounded_number(limit, usize::MAX as nat) {
            Some(n) => Some(
                if n < MAX_LIMIT {
                    n
                } else {
                    MAX_LIMIT as nat
                },
            ),
            None => None,
        },
    }
}

/// Parse `limit`.
pub fn parse_limit(limit: Option<&str>) -> (parsed: Result<usize, Response>)
    ensures
        match page_size(opt_view(limit)) {
            Some(n) => parsed is Ok && parsed->Ok_0 == n,
            None => parsed is Err && parsed->Err_0.is_error(
                BAD_REQUEST,
                "M_INVALID_PARAM"@,
                "'limit' parameter is invalid"@,
            ),
        },
{
    match limit {
        None => Ok(DEFAULT_LIMIT),
        Some(limit) => match parse_number(limit, usize::MAX as u64) {
            Some(n) => if n < MAX_LIMIT as u64 {
                Ok(n as usize)
            } else {
                Ok(MAX_LIMIT)
            },
            None => Err(
                error_response(BAD_REQUEST, "M_INVALID_PARAM", "'limit' parameter is invalid"),
            ),
        },
    }
}

/// A request for a page.
#[derive(Clone, Copy)]
pub struct PageParams<'a> {
    pub dir: Option<&'a str>,
    pub from: Option<&'a str>,
    pub to: Option<&'a str>,
    pub limit: Option<&'a str>,
}

/// A page that is to be read.
#[derive(Debug, PartialEq, Eq)]
pub struct PageRequest {
    pub dir: Direction,
    pub from: Option<u64>,
    pub to: Option<u64>,
    pub limit: usize,
}

/// What is wrong with a request, if anything is: its room first, then its direction, its tokens
/// and its limit.
pub open spec fn page_complaint(room_id: Seq<char>, params: PageParams<'_>) -> Option<Seq<char>> {
    if !valid_room_id(room_id) {
        Some(room_id_complaint(room_id))
    } else if dir_named(opt_view(params.dir)) is None {
        Some("dir must be 'b' or 'f', got '"@ + params.dir->0@ + "'"@)
    } else if token_position(opt_view(params.from)) is None {
        Some("'"@ + "from"@ + "' parameter is invalid"@)
    } else if token_position(opt_view(params.to)) is None {
        Some("'"@ + "to"@ + "' parameter is invalid"@)
    } else if page_size(opt_view(params.limit)) is None {
        Some("'limit' parameter is invalid"@)
    } else {
        None
    }
}

/// The page that a request asks for, or the error that answers it. A malformed request is refused
/// as malformed, whoever sends it; then the user must be joined to the room.
pub fn plan_messages(
    room_id: &str,
    params: PageParams<'_>,
    member: Result<Option<Event>, String>,
) -> (plan: Result<PageRequest, Response>)
    ensures
        match page_complaint(room_id@, params) {
            Some(complaint) => plan is Err && plan->Err_0.is_error(
                BAD_REQUEST,
                "M_INVALID_PARAM"@,
                complaint,
            ),
            None => match member {
                Err(e) => plan is Err && plan->Err_0.is_error(
                    INTERNAL_SERVER_ERROR,
                    "M_UNKNOWN"@,
                    e@,
                ),
                Ok(event) => if content_text(event, "membership"@) != Some("join"@) {
                    plan is Err && plan->Err_0.is_error(
                        FORBIDDEN,
                        "M_FORBIDDEN"@,
                        "You aren't a member of the room."@,
                    )
                } else {
                    &&& plan is Ok
                    &&& dir_named(opt_view(params.dir)) == Some(plan->Ok_0.dir)
                    &&& token_position(opt_view(params.from)) == Some(opt_position(plan->Ok_0.from))
                    &&& token_position(opt_view(params.to)) == Some(opt_position(plan->Ok_0.to))
                    &&& page_size(opt_view(params.limit)) == Some(plan->Ok_0.limit as nat)
                },
            },
        },
{
    match refuse_room_id(room_id) {
        Some(response) => return Err(response),
        None => {},
    }
    let dir = match parse_dir(params.dir) {
        Ok(dir) => dir,
        Err(response) => return Err(response),
    };
    let from = match parse_token(params.from, "from") {
        Ok(from) => from,
        Err(response) => return Err(response),
    };
    let to = match parse_token(params.to, "to") {
        Ok(to) => to,
        Err(response) => return Err(response),
    };
    let limit = match parse_limit(params.limit) {
        Ok(limit) => limit,
        Err(response) => return Err(response),
    };
    let membership = match current_membership(member) {
        Ok(membership) => membership,
        Err(response) => return Err(response),
    };
    if !opt_is(&membership, "join") {
        return Err(
            error_response(FORBIDDEN, "M_FORBIDDEN", "You aren't a member of the room."),
        );
    }
    Ok(PageRequest { dir, from, to, limit })
}

/// The token that a page starts from: the one that was given; without one the earliest, or, going
/// backward, the room's newest position.
pub open spec fn start_position(request: PageRequest, head: u64) -> u64 {
    match request.from {
        Some(from) => from,
        None => match request.dir {
            Direction::Forward => 0,
            Direction::Backward => head,
        },
    }
}

/// The body of a page: its events, where it starts, and, where there is more, where it ends.
pub open spec fn page_json(chunk: Seq<JsonModel>, start: u64, end: Option<u64>) -> JsonModel {
    let head = seq![
        ("chunk"@, JsonModel::Array(chunk)),
        ("start"@, JsonModel::Str(decimal(start as nat))),
    ];
    match end {
        Some(end) => JsonModel::Object(head.push(("end"@, JsonModel::Str(decimal(end as nat))))),
        None => JsonModel::Object(head),
    }
}

/// Answers with a page: from the room's newest position, which only a page that goes backward from
/// there needs, and from the events that were read, as they came.
pub fn answer_messages(
    request: &PageRequest,
    head: Result<u64, String>,
    page: Result<(Vec<Json>, Option<u64>), String>,
) -> (response: Response)
    ensures
        ({
            let needs_head = request.from is None && request.dir == Direction::Backward;
            if needs_head && head is Err {
                response.is_error(INTERNAL_SERVER_ERROR, "M_UNKNOWN"@, head->Err_0@)
            } else {
                match page {
                    Err(e) => response.is_error(INTERNAL_SERVER_ERROR, "M_UNKNOWN"@, e@),
                    Ok((chunk, end)) => response.is(
                        OK,
                        page_json(models(chunk@), start_position(*request, head->Ok_0), end),
                    ),
                }
            }
        }),
{
    let start: u64 = match request.from {
        Some(from) => from,
        None => match request.dir {
            Direction::Forward => 0,
            Direction::Backward => match head {
                Ok(head) => head,
                Err(e) => return storage_failed(e.as_str()),
            },
        },
    };
    let (chunk, end) = match page {
        Ok(page) => page,
        Err(e) => return storage_failed(e.as_str()),
    };
    let ghost events = models(chunk@);
    let body = Json::empty_object().and("chunk", Json::array(chunk)).and(
        "start",
        Json::Str(decimal_text(start)),
    );
    let body = match end {
        Some(end) => body.and("end", Json::Str(decimal_text(end))),
        None => body,
    };
    assert(body.model()->Object_0 =~= page_json(events, start, end)->Object_0);
    Response::ok(body)
}

/// A token that a page ends with is taken back as the position where the next page starts.
pub proof fn end_is_next_from(position: u64)
    requires
        position <= LAST_POSITION,
    ensures
        token_position(Some(decimal(position as nat))) == Some(Some(position as nat)),
{
    number_of_decimal(position as nat);
    reveal_strlit("");
    reveal_strlit("END");
    crate::text::decimal_is_digits(position as nat);
    assert("END"@[0] == 'E');
}

/// A page is as large as was asked for, up to 1000 events: a limit up to that is taken as it is
/// written, and a larger one as 1000.
pub proof fn limit_is_honoured(n: nat, text: &str, parsed: Result<usize, Response>)
    requires
        n <= usize::MAX,
        text@ == decimal(n),
        call_ensures(parse_limit, (Some(text),), parsed),
    ensures
        parsed is Ok,
        n <= 1000 ==> parsed->Ok_0 == n,
        n > 1000 ==> parsed->Ok_0 == 1000,
{
    number_of_decimal(n);
}

/// Without a limit a page has 10 events; no page has more than 1000; what is no number is refused.
pub proof fn limit_is_bounded(limit: Option<&str>, parsed: Result<usize, Response>)
    requires
        call_ensures(parse_limit, (limit,), parsed),
    ensures
        limit is None ==> parsed == Ok::<usize, Response>(10),
        parsed matches Ok(n) ==> n <= 1000,
        limit matches Some(text) && number(text@) is None ==> parsed is Err,
        parsed matches Err(response) ==> response.status == 400,
{
}

/// A direction is `b` for backward or `f` for forward; without one it is forward; anything else is
/// refused.
pub proof fn direction_is_as_named(dir: Option<&str>, parsed: Result<Direction, Response>)
    requires
        call_ensures(parse_dir, (dir,), parsed),
    ensures
        parsed == Ok::<Direction, Response>(Direction::Backward) <==> dir is Some && dir->0@ == "b"@,
        parsed == Ok::<Direction, Response>(Direction::Forward) <==> dir is None || dir->0@ == "f"@,
        parsed matches Err(response) ==> response.status == 400,
{
    reveal_strlit("b");
    reveal_strlit("f");
    assert("b"@[0] != "f"@[0]);
}

/// A token names the position that is written in it. No token, an empty one and `END` name none;
/// anything else is refused, so is a number that no position has.
pub proof fn token_is_the_position(n: nat, token: &str, key: &str, parsed: Result<Option<u64>, Response>)
    requires
        call_ensures(parse_token, (Some(token), key), parsed),
    ensures
        token@ == decimal(n) && n <= 0x7fff_ffff_ffff_ffff ==> parsed is Ok && parsed->Ok_0 is Some
            && parsed->Ok_0->0 == n,
        token@ == decimal(n) && n > 0x7fff_ffff_ffff_ffff ==> parsed is Err,
        token@ == ""@ || token@ == "END"@ ==> parsed == Ok::<Option<u64>, Response>(None),
        token@ != ""@ && token@ != "END"@ && number(token@) is None ==> parsed is Err,
        parsed matches Err(response) ==> response.status == 400,
{
    number_of_decimal(n);
    reveal_strlit("");
    reveal_strlit("END");
    crate::text::decimal_is_digits(n);
    assert("END"@[0] == 'E');
}

/// History is for members alone: a page is read only for one whose membership is `join`; anyone
/// else whose request is well formed is refused with 403. The page that is read is the one that was
/// asked for.
pub proof fn history_is_for_members(
    room_id: &str,
    params: PageParams<'_>,
    member: Result<Option<Event>, String>,
    plan: Result<PageRequest, Response>,
)
    requires
        call_ensures(plan_messages, (room_id, params, member), plan),
    ensures
        plan is Ok ==> member is Ok && member->Ok_0 is Some
            && member->Ok_0->0@.content.text_at("membership"@) == Some("join"@) && valid_room_id(
            room_id@,
        ),
        page_complaint(room_id@, params) is None && member is Ok && !(member->Ok_0 is Some
            && member->Ok_0->0@.content.text_at("membership"@) == Some("join"@)) ==> plan is Err
            && plan->Err_0.status == 403,
        page_complaint(room_id@, params) is None && member is Err ==> plan is Err
            && plan->Err_0.status == 500,
        page_complaint(room_id@, params) is Some ==> plan is Err && plan->Err_0.status == 400,
        page_complaint(room_id@, params) is None && member is Ok && member->Ok_0 is Some
            && member->Ok_0->0@.content.text_at("membership"@) == Some("join"@) ==> plan is Ok,
        plan matches Ok(page) ==> page.limit <= 1000,
{
}

/// A request is in order exactly where each of its parts is: a room identifier, a direction, two
/// tokens and a limit.
pub proof fn request_is_in_order(room_id: Seq<char>, params: PageParams<'_>)
    ensures
        page_complaint(room_id, params) is None <==> {
            &&& valid_room_id(room_id)
            &&& params.dir is None || params.dir->0@ == "b"@ || params.dir->0@ == "f"@
            &&& token_position(opt_view(params.from)) is Some
            &&& token_position(opt_view(params.to)) is Some
            &&& page_size(opt_view(params.limit)) is Some
        },
{
}

/// A request that names its bounds gets those bounds: the page goes the way that is named, from the
/// one position to the other, with as many events as are wanted.
pub proof fn page_is_the_one_asked_for(
    room_id: &str,
    params: PageParams<'_>,
    member: Result<Option<Event>, String>,
    plan: Result<PageRequest, Response>,
    from: nat,
    to: nat,
    limit: nat,
)
    requires
        call_ensures(plan_messages, (room_id, params, member), plan),
        plan is Ok,
    ensures
        params.dir is Some && params.dir->0@ == "b"@ ==> plan->Ok_0.dir == Direction::Backward,
        params.dir is None || params.dir->0@ == "f"@ ==> plan->Ok_0.dir == Direction::Forward,
        params.from is Some && params.from->0@ == decimal(from) ==> plan->Ok_0.from is Some
            && plan->Ok_0.from->0 == from,
        params.from is None ==> plan->Ok_0.from is None,
        params.to is Some && params.to->0@ == decimal(to) ==> plan->Ok_0.to is Some
            && plan->Ok_0.to->0 == to,
        params.to is None ==> plan->Ok_0.to is None,
        params.limit is Some && params.limit->0@ == decimal(limit) && limit <= 1000
            ==> plan->Ok_0.limit == limit,
        params.limit is None ==> plan->Ok_0.limit == 10,
{
    number_of_decimal(from);
    number_of_decimal(to);
    number_of_decimal(limit);
    crate::text::decimal_is_digits(from);
    crate::text::decimal_is_digits(to);
    reveal_strlit("");
    reveal_strlit("END");
    reveal_strlit("b");
    reveal_strlit("f");
    assert("b"@[0] != "f"@[0]);
    assert("END"@[0] == 'E');
}

/// What a client reads of a page: all of its events, in their order; where it starts, which is the
/// position that was asked for, or else the earliest going forward and the newest going backward;
/// and where the next one starts, exactly where there is more.
pub proof fn page_is_read(
    request: PageRequest,
    head: Result<u64, String>,
    chunk: Vec<Json>,
    end: Option<u64>,
    response: Response,
)
    requires
        call_ensures(answer_messages, (&request, head, Ok((chunk, end))), response),
        head is Ok || request.from is Some || request.dir == Direction::Forward,
    ensures
        response.status == 200,
        response.body.model().get("chunk"@) == Some(JsonModel::Array(models(chunk@))),
        request.from matches Some(from) ==> response.body.model().text_at("start"@) == Some(
            decimal(from as nat),
        ),
        request.from is None && request.dir == Direction::Forward ==> response.body.model().text_at(
            "start"@,
        ) == Some(decimal(0)),
        request.from is None && request.dir == Direction::Backward ==> response.body.model().text_at(
            "start"@,
        ) == Some(decimal(head->Ok_0 as nat)),
        response.body.model().text_at("end"@) == match end {
            Some(end) => Some(decimal(end as nat)),
            None => None,
        },
{
    reveal_strlit("chunk");
    reveal_strlit("start");
    reveal_strlit("end");
    assert("chunk"@[0] == 'c' && "start"@[0] == 's' && "end"@[0] == 'e');
    let members = page_json(
        models(chunk@),
        start_position(request, head->Ok_0),
        end,
    )->Object_0;
    member_position_is(members, "chunk"@, 0, 0);
    member_position_is(members, "start"@, 0, 1);
    member_position_is(members, "end"@, 0, 2);
}

} // verus!
