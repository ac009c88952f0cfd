//! The edge of sync: what a request asks for, how a legacy request is run, and what is answered.
//!
//! The sync itself is computed elsewhere. A legacy `since` token is durable: a client may sync from
//! any past token. A sliding-sync position is not: only the last one that was issued is known. So a
//! legacy request with an unknown token falls back to a full sync under a fresh token.

use vstd::prelude::*;

use crate::event::opt_text;
use crate::json::{member_position_is, Json, JsonModel};
use crate::response::{
    error_is_read, error_response, Response, BAD_REQUEST, INTERNAL_SERVER_ERROR, OK,
};
use crate::store::{lists_memberships, InMemoryStore};
use crate::text::{bounded_number, decimal, number_of_decimal, parse_number, texts};

verus! {

/// Why a sync failed.
#[derive(Debug, PartialEq, Eq)]
pub enum SyncError {
    /// The position is not the last one that was issued.
    UnknownPos,
    /// The request makes no sense, with the reason.
    BadRequest(&'static str),
    Storage(String),
    /// A stored event could not be shown.
    EventConversion(String),
}

impl SyncError {
    /// Whether an answer is the one to this error.
    pub open spec fn answered_by(self, response: Response) -> bool {
        match self {
            SyncError::UnknownPos => response.is_error(
                BAD_REQUEST,
                "M_UNKNOWN_POS"@,
                "Unknown position"@,
            ),
            SyncError::BadRequest(reason) => response.is_error(
                BAD_REQUEST,
                "M_INVALID_PARAM"@,
                reason@,
            ),
            SyncError::Storage(e) => response.is_error(INTERNAL_SERVER_ERROR, "M_UNKNOWN"@, e@),
            SyncError::EventConversion(e) => response.is_error(
                INTERNAL_SERVER_ERROR,
                "M_UNKNOWN"@,
                e@,
            ),
        }
    }

    /// The answer to the error.
    pub fn into_response(self) -> (response: Response)
        ensures
            self.answered_by(response),
    {
        match self {
            SyncError::UnknownPos => error_response(
                BAD_REQUEST,
                "M_UNKNOWN_POS",
                "Unknown position",
            ),
            SyncError::BadRequest(reason) => error_response(BAD_REQUEST, "M_INVALID_PARAM", reason),
            SyncError::Storage(e) => error_response(
                INTERNAL_SERVER_ERROR,
                "M_UNKNOWN",
                e.as_str(),
            ),
            SyncError::EventConversion(e) => error_response(
                INTERNAL_SERVER_ERROR,
                "M_UNKNOWN",
                e.as_str(),
            ),
        }
    }
}

/// The answer to a sync.
pub fn sync_response(synced: Result<Json, SyncError>) -> (response: Response)
    ensures
        match synced {
            Ok(body) => response.is(OK, body.model()),
            Err(e) => e.answered_by(response),
        },
{
    match synced {
        Ok(body) => Response::ok(body),
        Err(e) => e.into_response(),
    }
}

/// Whether the body of a request asks for nothing: it is `null`, or an object without members.
pub open spec fn asks_nothing(body: JsonModel) -> bool {
    body is Null || (body is Object && body.members().len() == 0)
}

/// Whether the body of a request asks for nothing; then it is not parsed, and the defaults hold.
pub fn is_blank(body: &Json) -> (blank: bool)
    ensures
        blank == asks_nothing(body.model()),
{
    match body {
        Json::Null => true,
        Json::Object(members) => {
            proof {
                Json::model_of_object(*members);
            }
            members.len() == 0
        },
        _ => false,
    }
}

/// A sync request: the parsed body, with what the query adds to it.
#[derive(Debug, PartialEq, Eq)]
pub struct SyncRequest<B> {
    pub body: B,
    /// The position to sync from.
    pub pos: Option<String>,
    /// How long to wait for something new, in milliseconds.
    pub timeout: Option<u64>,
}

/// How long a query asks to wait. What is no number of milliseconds is passed over.
pub open spec fn timeout_asked(timeout: Option<&str>) -> Option<nat> {
    match timeout {
        Some(text) => bounded_number(text@, u64::MAX as nat),
        None => None,
    }
}

/// The error of a body that could not be parsed, or the request that the body and the query make.
pub fn build_sync_request<B>(
    pos: Option<&str>,
    timeout: Option<&str>,
    parsed: Result<B, String>,
) -> (request: Result<SyncRequest<B>, Response>)
    ensures
        match (parsed, request) {
            (Ok(body), Ok(request)) => {
                &&& request.body == body
                &&& opt_text(request.pos) == (match pos {
                    Some(pos) => Some(pos@),
                    None => None,
                })
                &&& match request.timeout {
                    Some(ms) => timeout_asked(timeout) == Some(ms as nat),
                    None => timeout_asked(timeout) is None,
                }
            },
            (Err(complaint), Err(response)) => response.is_error(
                BAD_REQUEST,
                "M_BAD_JSON"@,
                complaint@,
            ),
            _ => false,
        },
{
    let body = match parsed {
        Ok(body) => body,
        Err(complaint) => return Err(
            error_response(BAD_REQUEST, "M_BAD_JSON", complaint.as_str()),
        ),
    };
    let pos = match pos {
        Some(pos) => Some(pos.to_owned()),
        None => None,
    };
    let timeout = match timeout {
        Some(text) => parse_number(text, u64::MAX),
        None => None,
    };
    Ok(SyncRequest { body, pos, timeout })
}

/// What a sync found in its extensions.
#[derive(Debug, PartialEq, Eq)]
pub struct Extensions {
    /// Whether messages to the device are given.
    pub to_device: bool,
    /// Whether the lists of devices that changed or left are empty.
    pub device_lists_empty: bool,
    /// Whether the counts of one-time keys are empty.
    pub key_counts_empty: bool,
    /// Whether the types of unused fallback keys are given.
    pub fallback_types: bool,
}

/// Whether nothing was found.
pub fn extensions_is_empty(found: &Extensions) -> (empty: bool)
    ensures
        empty == (!found.to_device && found.device_lists_empty && found.key_counts_empty
            && !found.fallback_types),
{
    !found.to_device && found.device_lists_empty && found.key_counts_empty && !found.fallback_types
}

/// The members of an answer after one that is left out when it is `None`.
pub open spec fn with_optional(
    members: Seq<(Seq<char>, JsonModel)>,
    key: Seq<char>,
    value: Option<JsonModel>,
) -> Seq<(Seq<char>, JsonModel)> {
    match value {
        Some(value) => members.push((key, value)),
        None => members,
    }
}

/// A value, unless it is an object without members.
pub open spec fn unless_empty(value: JsonModel) -> Option<JsonModel> {
    if value is Object && value.members().len() == 0 {
        None
    } else {
        Some(value)
    }
}

/// The answer of a sync: what is empty is left out, but for the position.
pub open spec fn sync_body(
    txn_id: Option<Seq<char>>,
    pos: Seq<char>,
    lists: JsonModel,
    rooms: JsonModel,
    extensions: Option<JsonModel>,
) -> JsonModel {
    let txn = match txn_id {
        Some(id) => Some(JsonModel::Str(id)),
        None => None,
    };
    let head = with_optional(Seq::empty(), "txn_id"@, txn).push(("pos"@, JsonModel::Str(pos)));
    let listed = with_optional(head, "lists"@, unless_empty(lists));
    let roomed = with_optional(listed, "rooms"@, unless_empty(rooms));
    JsonModel::Object(with_optional(roomed, "extensions"@, extensions))
}

fn and_unless_empty(object: Json, key: &str, value: Json) -> (json: Json)
    requires
        object.model() is Object,
    ensures
        json.model() == JsonModel::Object(
            with_optional(object.model()->Object_0, key@, unless_empty(value.model())),
        ),
{
    let empty = match &value {
        Json::Object(members) => {
            proof {
                Json::model_of_object(*members);
            }
            members.len() == 0
        },
        _ => false,
    };
    if empty {
        object
    } else {
        object.and(key, value)
    }
}

/// The answer of a sync, put together from its parts.
pub fn sync_to_json(
    txn_id: Option<&str>,
    pos: &str,
    lists: Json,
    rooms: Json,
    extensions: Json,
    found: &Extensions,
) -> (json: Json)
    ensures
        json.model() == sync_body(
            match txn_id {
                Some(id) => Some(id@),
                None => None,
            },
            pos@,
            lists.model(),
            rooms.model(),
            if !found.to_device && found.device_lists_empty && found.key_counts_empty
                && !found.fallback_types {
                None
            } else {
                Some(extensions.model())
            },
        ),
{
    let json = Json::empty_object();
    let json = match txn_id {
        Some(id) => json.and("txn_id", Json::string(id)),
        None => json,
    };
    let json = json.and("pos", Json::string(pos));
    let json = and_unless_empty(json, "lists", lists);
    let json = and_unless_empty(json, "rooms", rooms);
    if extensions_is_empty(found) {
        json
    } else {
        json.and("extensions", extensions)
    }
}

/// How far a legacy sync is.
#[derive(Debug, PartialEq, Eq)]
pub enum LegacySync {
    /// The sync was asked for from the client's token.
    Asked,
    /// That token was unknown; a full sync was asked for.
    AskedAnew,
}

/// What a legacy sync does next.
#[derive(Debug, PartialEq, Eq)]
pub enum LegacyStep {
    /// Ask for a full sync, and take its result in this state.
    AskAnew(LegacySync),
    /// Answer.
    Answer(Response),
}

impl LegacySync {
    /// Begins: nothing is asked where the memberships of the user could not be read.
    pub fn begin<M>(memberships: Result<M, String>) -> (begun: Result<(LegacySync, M), Response>)
        ensures
            match (memberships, begun) {
                (Ok(m), Ok((state, kept))) => state is Asked && kept == m,
                (Err(e), Err(response)) => response.is_error(
                    INTERNAL_SERVER_ERROR,
                    "M_UNKNOWN"@,
                    e@,
                ),
                _ => false,
            },
    {
        match memberships {
            Ok(m) => Ok((LegacySync::Asked, m)),
            Err(e) => Err(error_response(INTERNAL_SERVER_ERROR, "M_UNKNOWN", e.as_str())),
        }
    }

    /// Takes what a sync came to.
    pub fn step(self, synced: Result<Json, SyncError>) -> (next: LegacyStep)
        ensures
            match next {
                LegacyStep::AskAnew(after) => {
                    &&& self is Asked
                    &&& synced is Err && synced->Err_0 is UnknownPos
                    &&& after is AskedAnew
                },
                LegacyStep::Answer(response) => {
                    &&& !(self is Asked && synced is Err && synced->Err_0 is UnknownPos)
                    &&& match synced {
                        Ok(body) => response.is(OK, body.model()),
                        Err(e) => e.answered_by(response),
                    }
                },
            },
    {
        match (self, synced) {
            (LegacySync::Asked, Err(SyncError::UnknownPos)) => LegacyStep::AskAnew(
                LegacySync::AskedAnew,
            ),
            (_, synced) => LegacyStep::Answer(sync_response(synced)),
        }
    }
}

/// The memberships of a user in all rooms, whatever they are.
pub fn fetch_memberships(store: &InMemoryStore, user_id: &str) -> (pairs: Vec<(String, String)>)
    requires
        store.wf(),
    ensures
        lists_memberships(
            pairs@,
            store@.memberships,
            user_id@,
            seq!["join"@, "invite"@, "knock"@, "leave"@, "ban"@],
        ),
{
    let all = vec![
        "join".to_owned(),
        "invite".to_owned(),
        "knock".to_owned(),
        "leave".to_owned(),
        "ban".to_owned(),
    ];
    assert(texts(all@) =~= seq!["join"@, "invite"@, "knock"@, "leave"@, "ban"@]);
    store.rooms_with_membership(user_id, &all)
}

/// A request is what its body and its query make it: the body as it was parsed, the position as it was
/// given, and as long a wait as was asked for. A body that cannot be parsed is refused with 400.
pub proof fn request_is_as_made<B>(
    pos: Option<&str>,
    timeout: Option<&str>,
    parsed: Result<B, String>,
    request: Result<SyncRequest<B>, Response>,
    n: nat,
)
    requires
        call_ensures(build_sync_request::<B>, (pos, timeout, parsed), request),
    ensures
        request is Ok <==> parsed is Ok,
        request matches Ok(made) ==> made.body == parsed->Ok_0,
        request matches Ok(made) ==> (made.pos is Some <==> pos is Some),
        request matches Ok(made) ==> (pos is Some ==> made.pos->0@ == pos->0@),
        request matches Ok(made) ==> (timeout is Some && timeout->0@ == decimal(n) && n <= u64::MAX
            ==> made.timeout is Some && made.timeout->0 == n),
        request matches Ok(made) ==> (timeout is None ==> made.timeout is None),
        request matches Err(response) ==> response.status == 400,
{
    number_of_decimal(n);
    if let Ok(made) = request {
        assert(opt_text(made.pos) == (match pos {
            Some(pos) => Some(pos@),
            None => None,
        }));
    }
}

/// A body asks for nothing exactly where it is `null` or an object without members.
pub proof fn blank_asks_nothing(body: Json, blank: bool)
    requires
        call_ensures(is_blank, (&body,), blank),
    ensures
        body is Null ==> blank,
        blank ==> body.model() is Null || body.model() == JsonModel::Object(Seq::empty()),
        body.model() == JsonModel::Object(Seq::empty()) ==> blank,
{
    if blank && body.model() is Object {
        assert(body.model()->Object_0 =~= Seq::empty());
    }
}

/// What a client reads of a sync: the position that it syncs from next, always; its own transaction
/// where it named one; and whatever was found, which is left out only where it is empty.
pub proof fn sync_is_read(
    txn_id: Option<&str>,
    pos: &str,
    lists: Json,
    rooms: Json,
    extensions: Json,
    found: Extensions,
    json: Json,
)
    requires
        call_ensures(sync_to_json, (txn_id, pos, lists, rooms, extensions, &found), json),
    ensures
        json.model().text_at("pos"@) == Some(pos@),
        json.model().text_at("txn_id"@) == match txn_id {
            Some(id) => Some(id@),
            None => None,
        },
        lists.model() != JsonModel::Object(Seq::empty()) ==> json.model().get("lists"@) == Some(
            lists.model(),
        ),
        lists.model() == JsonModel::Object(Seq::empty()) ==> json.model().get("lists"@) is None,
        rooms.model() != JsonModel::Object(Seq::empty()) ==> json.model().get("rooms"@) == Some(
            rooms.model(),
        ),
        rooms.model() == JsonModel::Object(Seq::empty()) ==> json.model().get("rooms"@) is None,
        json.model().get("extensions"@) == if found.to_device || !found.device_lists_empty
            || !found.key_counts_empty || found.fallback_types {
            Some(extensions.model())
        } else {
            None
        },
{
    reveal_strlit("txn_id");
    reveal_strlit("pos");
    reveal_strlit("lists");
    reveal_strlit("rooms");
    reveal_strlit("extensions");
    assert("txn_id"@.len() == 6 && "pos"@.len() == 3 && "lists"@[0] == 'l' && "rooms"@[0] == 'r'
        && "lists"@.len() == 5 && "rooms"@.len() == 5 && "extensions"@.len() == 10);
    if lists.model() is Object && lists.model()->Object_0.len() == 0 {
        assert(lists.model()->Object_0 =~= Seq::empty());
    }
    if rooms.model() is Object && rooms.model()->Object_0.len() == 0 {
        assert(rooms.model()->Object_0 =~= Seq::empty());
    }
    let members = json.model()->Object_0;
    let at_pos: int = if txn_id is Some {
        1
    } else {
        0
    };
    let with_lists = unless_empty(lists.model()) is Some;
    let with_rooms = unless_empty(rooms.model()) is Some;
    let with_found = found.to_device || !found.device_lists_empty || !found.key_counts_empty
        || found.fallback_types;
    let at_lists = at_pos + 1;
    let at_rooms = if with_lists {
        at_lists + 1
    } else {
        at_lists
    };
    let at_found = if with_rooms {
        at_rooms + 1
    } else {
        at_rooms
    };
    let end = members.len() as int;
    member_position_is(members, "pos"@, 0, at_pos);
    member_position_is(
        members,
        "txn_id"@,
        0,
        if txn_id is Some {
            0
        } else {
            end
        },
    );
    member_position_is(
        members,
        "lists"@,
        0,
        if with_lists {
            at_lists
        } else {
            end
        },
    );
    member_position_is(
        members,
        "rooms"@,
        0,
        if with_rooms {
            at_rooms
        } else {
            end
        },
    );
    member_position_is(
        members,
        "extensions"@,
        0,
        if with_found {
            at_found
        } else {
            end
        },
    );
}

/// A legacy sync from a token that is not known falls back to a full one, once: the second time it is
/// answered, whatever came of it.
pub proof fn unknown_token_falls_back_once(
    state: LegacySync,
    synced: Result<Json, SyncError>,
    next: LegacyStep,
)
    requires
        call_ensures(LegacySync::step, (state, synced), next),
    ensures
        state is Asked && synced == Err::<Json, SyncError>(SyncError::UnknownPos) ==> next
            == LegacyStep::AskAnew(LegacySync::AskedAnew),
        state is AskedAnew || synced is Ok ==> next is Answer,
        synced matches Ok(body) ==> (next matches LegacyStep::Answer(response) && response.status
            == 200 && response.body.model() == body.model()),
        state is AskedAnew && synced == Err::<Json, SyncError>(SyncError::UnknownPos) ==> (
        next matches LegacyStep::Answer(response) && response.status == 400),
        (synced matches Err(e) && (e is Storage || e is EventConversion)) ==> (
        next matches LegacyStep::Answer(response) && response.status == 500),
        (synced matches Err(e) && e is BadRequest) ==> (next matches LegacyStep::Answer(response)
            && response.status == 400),
{
}

/// A sync is answered with what it found, or with the error of its kind.
pub proof fn sync_is_answered(synced: Result<Json, SyncError>, response: Response)
    requires
        call_ensures(sync_response, (synced,), response),
    ensures
        response.status == 200 <==> synced is Ok,
        synced matches Ok(body) ==> response.body.model() == body.model(),
        synced matches Err(e) ==> (response.status == 400 <==> e is UnknownPos || e is BadRequest),
        synced == Err::<Json, SyncError>(SyncError::UnknownPos) ==> response.body.model().text_at(
            "errcode"@,
        ) == Some("M_UNKNOWN_POS"@),
{
    error_is_read("M_UNKNOWN_POS"@, "Unknown position"@);
}

} // verus!
