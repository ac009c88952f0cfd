//! What a request is answered: a status and a JSON body, and the errors that handlers answer with.

use vstd::prelude::*;

use crate::json::{member_position_is, Json, JsonModel};

verus! {

pub const OK: u16 = 200;

pub const BAD_REQUEST: u16 = 400;

pub const UNAUTHORIZED: u16 = 401;

pub const FORBIDDEN: u16 = 403;

pub const NOT_FOUND: u16 = 404;

pub const INTERNAL_SERVER_ERROR: u16 = 500;

pub const BAD_GATEWAY: u16 = 502;

pub const SERVICE_UNAVAILABLE: u16 = 503;

/// An answer.
#[derive(Debug, PartialEq, Eq)]
pub struct Response {
    pub status: u16,
    pub body: Json,
}

/// The body of an error: a code for programs and a sentence for people.
pub open spec fn error_body(errcode: Seq<char>, error: Seq<char>) -> JsonModel {
    JsonModel::Object(
        seq![("errcode"@, JsonModel::Str(errcode)), ("error"@, JsonModel::Str(error))],
    )
}

impl Response {
    /// Whether this answer has this status and this body.
    pub open spec fn is(self, status: u16, body: JsonModel) -> bool {
        self.status == status && self.body.model() == body
    }

    /// Whether this answer is this error.
    pub open spec fn is_error(self, status: u16, errcode: Seq<char>, error: Seq<char>) -> bool {
        self.is(status, error_body(errcode, error))
    }

    /// The answer to a request that was met.
    pub fn ok(body: Json) -> (response: Response)
        ensures
            response.is(OK, body.model()),
    {
        Response { status: OK, body }
    }
}

/// An error answer.
pub fn error_response(status: u16, errcode: &str, error: &str) -> (response: Response)
    ensures
        response.is_error(status, errcode@, error@),
{
    let body = Json::empty_object().and("errcode", Json::string(errcode)).and(
        "error",
        Json::string(error),
    );
    assert(body.model()->Object_0 =~= error_body(errcode@, error@)->Object_0);
    Response { status, body }
}

/// Errors any federation handler can surface.
///
/// - `BadRequest`: 400 `M_INVALID_PARAM`
/// - `Unauthorized`: 401 `M_UNAUTHORIZED`
/// - `Forbidden`: 403 `M_FORBIDDEN`
/// - `RoomNotFound`: 404 `M_NOT_FOUND`
/// - `IncompatibleRoomVersion`: 400 `M_INCOMPATIBLE_ROOM_VERSION`, with the room's version
/// - `Storage`, `Internal`: 500 `M_UNKNOWN`
#[derive(Debug, PartialEq, Eq)]
pub enum FedError {
    BadRequest(&'static str),
    Unauthorized(&'static str),
    Forbidden(&'static str),
    RoomNotFound,
    IncompatibleRoomVersion(String),
    Storage(String),
    Internal(&'static str),
}

impl FedError {
    /// The status that the error is answered with.
    pub open spec fn status(self) -> u16 {
        match self {
            FedError::BadRequest(_) => BAD_REQUEST,
            FedError::Unauthorized(_) => UNAUTHORIZED,
            FedError::Forbidden(_) => FORBIDDEN,
            FedError::RoomNotFound => NOT_FOUND,
            FedError::IncompatibleRoomVersion(_) => BAD_REQUEST,
            FedError::Storage(_) => INTERNAL_SERVER_ERROR,
            FedError::Internal(_) => INTERNAL_SERVER_ERROR,
        }
    }

    /// The code of the error.
    pub open spec fn errcode(self) -> Seq<char> {
        match self {
            FedError::BadRequest(_) => "M_INVALID_PARAM"@,
            FedError::Unauthorized(_) => "M_UNAUTHORIZED"@,
            FedError::Forbidden(_) => "M_FORBIDDEN"@,
            FedError::RoomNotFound => "M_NOT_FOUND"@,
            FedError::IncompatibleRoomVersion(_) => "M_INCOMPATIBLE_ROOM_VERSION"@,
            FedError::Storage(_) => "M_UNKNOWN"@,
            FedError::Internal(_) => "M_UNKNOWN"@,
        }
    }

    /// The sentence of the error.
    pub open spec fn message(self) -> Seq<char> {
        match self {
            FedError::BadRequest(m) => m@,
            FedError::Unauthorized(m) => m@,
            FedError::Forbidden(m) => m@,
            FedError::RoomNotFound => "room not found"@,
            FedError::IncompatibleRoomVersion(_) => "incompatible room version"@,
            FedError::Storage(m) => m@,
            FedError::Internal(m) => m@,
        }
    }

    /// The body of the error.
    pub open spec fn body(self) -> JsonModel {
        match self {
            FedError::IncompatibleRoomVersion(version) => JsonModel::Object(
                error_body(self.errcode(), self.message())->Object_0.push(
                    ("room_version"@, JsonModel::Str(version@)),
                ),
            ),
            _ => error_body(self.errcode(), self.message()),
        }
    }

    /// The answer that the error makes.
    pub fn into_response(self) -> (response: Response)
        ensures
            response.is(self.status(), self.body()),
    {
        match self {
            FedError::BadRequest(m) => error_response(BAD_REQUEST, "M_INVALID_PARAM", m),
            FedError::Unauthorized(m) => error_response(UNAUTHORIZED, "M_UNAUTHORIZED", m),
            FedError::Forbidden(m) => error_response(FORBIDDEN, "M_FORBIDDEN", m),
            FedError::RoomNotFound => error_response(NOT_FOUND, "M_NOT_FOUND", "room not found"),
            FedError::IncompatibleRoomVersion(version) => {
                let error = error_response(
                    BAD_REQUEST,
                    "M_INCOMPATIBLE_ROOM_VERSION",
                    "incompatible room version",
                );
                Response {
                    status: error.status,
                    body: error.body.and("room_version", Json::Str(version)),
                }
            },
            FedError::Storage(m) => error_response(INTERNAL_SERVER_ERROR, "M_UNKNOWN", m.as_str()),
            FedError::Internal(m) => error_response(INTERNAL_SERVER_ERROR, "M_UNKNOWN", m),
        }
    }
}

/// What a client reads of an error: its code and its sentence.
pub proof fn error_is_read(errcode: Seq<char>, error: Seq<char>)
    ensures
        error_body(errcode, error).text_at("errcode"@) == Some(errcode),
        error_body(errcode, error).text_at("error"@) == Some(error),
{
    reveal_strlit("errcode");
    reveal_strlit("error");
    let members = error_body(errcode, error)->Object_0;
    assert("errcode"@.len() == 7 && "error"@.len() == 5);
    member_position_is(members, "errcode"@, 0, 0);
    member_position_is(members, "error"@, 0, 1);
}

/// What another server reads of an error: the status and the code of its kind, and its sentence.
/// A request that is malformed, not attested, not allowed, or about an unknown room is told from a
/// fault of this server.
pub proof fn fed_error_is_read(error: FedError, response: Response)
    requires
        call_ensures(FedError::into_response, (error,), response),
    ensures
        error is BadRequest || error is IncompatibleRoomVersion <==> response.status == 400,
        error is Unauthorized <==> response.status == 401,
        error is Forbidden <==> response.status == 403,
        error is RoomNotFound <==> response.status == 404,
        error is Storage || error is Internal <==> response.status == 500,
        error is BadRequest ==> response.body.model().text_at("errcode"@) == Some(
            "M_INVALID_PARAM"@,
        ),
        error is Unauthorized ==> response.body.model().text_at("errcode"@) == Some(
            "M_UNAUTHORIZED"@,
        ),
        error is Forbidden ==> response.body.model().text_at("errcode"@) == Some("M_FORBIDDEN"@),
        error is RoomNotFound ==> response.body.model().text_at("errcode"@) == Some(
            "M_NOT_FOUND"@,
        ),
        error is Storage || error is Internal ==> response.body.model().text_at("errcode"@) == Some(
            "M_UNKNOWN"@,
        ),
        error matches FedError::IncompatibleRoomVersion(version) ==> response.body.model().text_at(
            "errcode"@,
        ) == Some("M_INCOMPATIBLE_ROOM_VERSION"@) && response.body.model().text_at("room_version"@)
            == Some(version@),
        error matches FedError::BadRequest(m) ==> response.body.model().text_at("error"@) == Some(m@),
        error matches FedError::Unauthorized(m) ==> response.body.model().text_at("error"@) == Some(
            m@,
        ),
        error matches FedError::Forbidden(m) ==> response.body.model().text_at("error"@) == Some(m@),
        error matches FedError::Storage(m) ==> response.body.model().text_at("error"@) == Some(m@),
        error matches FedError::Internal(m) ==> response.body.model().text_at("error"@) == Some(m@),
{
    error_is_read(error.errcode(), error.message());
    reveal_strlit("errcode");
    reveal_strlit("error");
    reveal_strlit("room_version");
    assert("errcode"@.len() == 7 && "error"@.len() == 5 && "room_version"@.len() == 12);
    let members = error.body()->Object_0;
    member_position_is(members, "errcode"@, 0, 0);
    member_position_is(members, "error"@, 0, 1);
    if error is IncompatibleRoomVersion {
        member_position_is(members, "room_version"@, 0, 2);
    }
}

} // verus!
