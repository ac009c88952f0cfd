//! Answers of the client API that carry no server state of their own: login, registration,
//! capabilities, profile and the other things that a client asks for; and who the client is.

use vstd::prelude::*;
use vstd::string::StringExecFns;

use crate::event::opt_text;
use crate::ids::{check_user_id, user_id_complaint, valid_user_id};
use crate::json::{first_member_is_read, models, Json, JsonModel};
use crate::keys::DEVICE_ID;
use crate::response::{
    error_body, error_is_read, error_response, Response, BAD_REQUEST, INTERNAL_SERVER_ERROR,
    NOT_FOUND, OK, UNAUTHORIZED,
};
use crate::text::{chars_of, cut, position_is, slice, split_once, text_of};

verus! {

/// What the server's root answers.
pub const GREETING: &'static str = "Hello, World!";

/// What a request to an unknown route is answered, with the status 404.
pub const UNKNOWN_ROUTE: &'static str = "The requested resource was not found.";

/// The access token of the server's one user.
pub const ACCESS_TOKEN: &'static str = "syt_1234567890abcdef";

/// The identifier of a user of a server.
pub open spec fn user_id_of(localpart: Seq<char>, server_name: Seq<char>) -> Seq<char> {
    "@"@ + localpart + ":"@ + server_name
}

/// The identifier of the user with this local part on this server.
pub fn user_id(localpart: &str, server_name: &str) -> (id: String)
    ensures
        id@ == user_id_of(localpart@, server_name@),
{
    "@".to_owned().concat(localpart).concat(":").concat(server_name)
}

/// The local part of an identifier that may be a full one (`@bob:server`) or already a local part
/// (`bob`).
pub open spec fn localpart(identifier: Seq<char>) -> Seq<char> {
    if identifier.len() > 0 && identifier[0] == '@' {
        match cut(identifier.skip(1), ':') {
            Some((local, _)) => local,
            None => identifier.skip(1),
        }
    } else {
        identifier
    }
}

/// Extract the local part from a login identifier that may be a full one (`@bob:server`) or
/// already a bare local part (`bob`).
pub fn localpart_of(identifier: &str) -> (local: String)
    ensures
        local@ == localpart(identifier@),
{
    let s = chars_of(identifier);
    if s.len() > 0 && s[0] == '@' {
        let rest = slice(&s, 1, s.len());
        assert(rest@ =~= identifier@.skip(1));
        match split_once(&rest, ':') {
            Some((local, _)) => text_of(&local),
            None => text_of(&rest),
        }
    } else {
        identifier.to_owned()
    }
}

/// The local part of a user's full identifier is the one that it was made of.
pub proof fn localpart_round_trips(local: Seq<char>, server_name: Seq<char>)
    requires
        !local.contains(':'),
    ensures
        localpart(user_id_of(local, server_name)) == local,
        !(local.len() > 0 && local[0] == '@') ==> localpart(local) == local,
{
    reveal_strlit("@");
    reveal_strlit(":");
    let id = user_id_of(local, server_name);
    let rest = id.skip(1);
    assert(rest =~= local.push(':') + server_name);
    position_is(rest, ':', 0, local.len() as int);
    assert(rest.take(local.len() as int) =~= local);
}

/// The API versions and the experimental features that the server has.
pub fn versions() -> (answer: Json)
    ensures
        answer.model() == JsonModel::Object(
            seq![
                (
                    "unstable_features"@,
                    JsonModel::Object(
                        seq![
                            ("org.matrix.simplified_msc3575"@, JsonModel::Bool(true)),
                            ("org.matrix.msc4222"@, JsonModel::Bool(true)),
                        ],
                    ),
                ),
                ("versions"@, JsonModel::Array(seq![JsonModel::Str("v1.16"@)])),
            ],
        ),
{
    let features = Json::single("org.matrix.simplified_msc3575", Json::Bool(true)).and(
        "org.matrix.msc4222",
        Json::Bool(true),
    );
    assert(features.model()->Object_0 =~= seq![
        ("org.matrix.simplified_msc3575"@, JsonModel::Bool(true)),
        ("org.matrix.msc4222"@, JsonModel::Bool(true)),
    ]);
    let answer = Json::single("unstable_features", features).and(
        "versions",
        list(Json::string("v1.16")),
    );
    assert(answer.model()->Object_0 =~= seq![
        ("unstable_features"@, features.model()),
        ("versions"@, JsonModel::Array(seq![JsonModel::Str("v1.16"@)])),
    ]);
    answer
}

/// An array of one value.
fn list(item: Json) -> (array: Json)
    ensures
        array.model() == JsonModel::Array(seq![item.model()]),
{
    let items = vec![item];
    assert(models(items@) =~= seq![item.model()]);
    Json::array(items)
}

/// The ways to log in.
pub fn get_login() -> (answer: Json)
    ensures
        answer.model() == JsonModel::Object(
            seq![
                (
                    "flows"@,
                    JsonModel::Array(
                        seq![
                            JsonModel::Object(
                                seq![("type"@, JsonModel::Str("m.login.password"@))],
                            ),
                        ],
                    ),
                ),
            ],
        ),
{
    Json::single("flows", list(Json::single("type", Json::string("m.login.password"))))
}

/// The answer to a registration without an `auth` block: which steps to take.
pub open spec fn register_flows() -> JsonModel {
    JsonModel::Object(
        seq![
            (
                "flows"@,
                JsonModel::Array(
                    seq![
                        JsonModel::Object(
                            seq![
                                (
                                    "stages"@,
                                    JsonModel::Array(seq![JsonModel::Str("m.login.dummy"@)]),
                                ),
                            ],
                        ),
                    ],
                ),
            ),
            ("params"@, JsonModel::Object(Seq::empty())),
            ("session"@, JsonModel::Str("neutrino-register-session"@)),
        ],
    )
}

/// The answer to a user who has logged in.
pub open spec fn session(
    user_id: Seq<char>,
    token: Seq<char>,
    server_name: Seq<char>,
    device_id: Seq<char>,
) -> JsonModel {
    JsonModel::Object(
        seq![
            ("user_id"@, JsonModel::Str(user_id)),
            ("access_token"@, JsonModel::Str(token)),
            ("home_server"@, JsonModel::Str(server_name)),
            ("device_id"@, JsonModel::Str(device_id)),
        ],
    )
}

/// The device that a registration asks for.
pub open spec fn wanted_device(body: JsonModel) -> Seq<char> {
    match body.text_at("device_id"@) {
        Some(device_id) => device_id,
        None => "DEVICEID"@,
    }
}

/// Answer a user who has logged in.
fn session_response(
    user_id: &str,
    token: &str,
    server_name: &str,
    device_id: &str,
) -> (response: Response)
    ensures
        response.is(OK, session(user_id@, token@, server_name@, device_id@)),
{
    let body = Json::single("user_id", Json::string(user_id)).and(
        "access_token",
        Json::string(token),
    ).and("home_server", Json::string(server_name)).and("device_id", Json::string(device_id));
    assert(body.model()->Object_0 =~= session(
        user_id@,
        token@,
        server_name@,
        device_id@,
    )->Object_0);
    Response::ok(body)
}

/// Where a registration goes next.
#[derive(Debug, PartialEq, Eq)]
pub enum Registration {
    /// It is answered.
    Answered(Response),
    /// A user is to be provided: the one that the client asks for, if it asks for one. The device
    /// is the one that the session is for.
    Provision { requested: Option<String>, device_id: String },
}

/// The user that a registration asks for.
pub open spec fn registered_name(body: JsonModel) -> Option<Seq<char>> {
    match body.text_at("username"@) {
        Some(name) => Some(localpart(name)),
        None => None,
    }
}

/// Begin a registration. Without an `auth` block it is answered with the steps to take. No step is
/// remembered, so a client that completes them sends its user name again.
pub fn begin_registration(body: &Json) -> (next: Registration)
    ensures
        match next {
            Registration::Answered(response) => {
                &&& body.model().get("auth"@) is None
                &&& response.is(UNAUTHORIZED, register_flows())
            },
            Registration::Provision { requested, device_id } => {
                &&& body.model().get("auth"@) is Some
                &&& opt_text(requested) == registered_name(body.model())
                &&& device_id@ == wanted_device(body.model())
            },
        },
{
    if body.get("auth").is_none() {
        let stages = Json::single("stages", list(Json::string("m.login.dummy")));
        let flows = Json::single("flows", list(stages)).and("params", Json::empty_object()).and(
            "session",
            Json::string("neutrino-register-session"),
        );
        assert(flows.model()->Object_0 =~= register_flows()->Object_0);
        return Registration::Answered(Response { status: UNAUTHORIZED, body: flows });
    }
    let device_id = match body.str_at("device_id") {
        Some(device_id) => device_id.clone(),
        None => DEVICE_ID.to_owned(),
    };
    let requested = match body.str_at("username") {
        Some(name) => Some(localpart_of(name.as_str())),
        None => None,
    };
    Registration::Provision { requested, device_id }
}

/// Register on a server of one user: whoever completes the steps is that user.
pub fn post_register(body: &Json, user_id: &str, server_name: &str) -> (response: Response)
    ensures
        body.model().get("auth"@) is None ==> response.is(UNAUTHORIZED, register_flows()),
        body.model().get("auth"@) is Some ==> response.is(
            OK,
            session(
                user_id@,
                "syt_1234567890abcdef"@,
                server_name@,
                wanted_device(body.model()),
            ),
        ),
{
    match begin_registration(body) {
        Registration::Answered(response) => response,
        Registration::Provision { requested: _, device_id } => session_response(
            user_id,
            ACCESS_TOKEN,
            server_name,
            device_id.as_str(),
        ),
    }
}

/// Log in on a server of one user.
pub fn post_login(user_id: &str, server_name: &str) -> (response: Response)
    ensures
        response.is(
            OK,
            session(user_id@, "syt_1234567890abcdef"@, server_name@, "DEVICEID"@),
        ),
{
    session_response(user_id, ACCESS_TOKEN, server_name, DEVICE_ID)
}

/// The user that a login asks for: `identifier.user` decides if it is there, else `user` does.
pub open spec fn login_name(body: JsonModel) -> Option<Seq<char>> {
    let identifier_user = match body.get("identifier"@) {
        Some(identifier) => identifier.get("user"@),
        None => None,
    };
    let named = match identifier_user {
        Some(user) => Some(user),
        None => body.get("user"@),
    };
    match named {
        Some(JsonModel::Str(name)) => Some(localpart(name)),
        _ => None,
    }
}

/// The user that a login asks for, on a server of several users.
pub fn requested_login(body: &Json) -> (requested: Option<String>)
    ensures
        opt_text(requested) == login_name(body.model()),
{
    let identifier_user = match body.get("identifier") {
        Some(identifier) => identifier.get("user"),
        None => None,
    };
    let named = match identifier_user {
        Some(user) => Some(user),
        None => body.get("user"),
    };
    match named {
        Some(Json::Str(name)) => Some(localpart_of(name.as_str())),
        _ => None,
    }
}

/// Answer a login or a registration after a user has been provided, with an access token, or been
/// refused. One that was refused is given no token.
pub fn answer_provision(
    provided: Result<(String, String), String>,
    server_name: &str,
    device_id: &str,
) -> (response: Response)
    ensures
        match provided {
            Ok((user_id, token)) => response.is(
                OK,
                session(user_id@, token@, server_name@, device_id@),
            ),
            Err(complaint) => response.is_error(BAD_REQUEST, "M_INVALID_USERNAME"@, complaint@),
        },
{
    match provided {
        Ok((user_id, token)) => session_response(
            user_id.as_str(),
            token.as_str(),
            server_name,
            device_id,
        ),
        Err(complaint) => error_response(BAD_REQUEST, "M_INVALID_USERNAME", complaint.as_str()),
    }
}

/// The user's profile.
pub fn profile() -> (answer: Json)
    ensures
        answer.model() == JsonModel::Object(seq![("displayname"@, JsonModel::Str("Alice"@))]),
{
    Json::single("displayname", Json::string("Alice"))
}

/// Account data: there is none.
pub fn get_account_data() -> (response: Response)
    ensures
        response.is_error(NOT_FOUND, "M_NOT_FOUND"@, "No current backup version"@),
{
    error_response(NOT_FOUND, "M_NOT_FOUND", "No current backup version")
}

/// The backup of room keys: there is none.
pub fn get_room_keys() -> (response: Response)
    ensures
        response.is_error(NOT_FOUND, "M_NOT_FOUND"@, "No current backup version"@),
{
    error_response(NOT_FOUND, "M_NOT_FOUND", "No current backup version")
}

/// Pushers are accepted and forgotten.
pub fn pushers_set() -> (response: Response)
    ensures
        response.is(OK, JsonModel::Object(Seq::empty())),
{
    Response::ok(Json::empty_object())
}

/// The room versions that the server tells clients of.
pub fn get_capabilities() -> (answer: Json)
    ensures
        answer.model() == JsonModel::Object(
            seq![
                (
                    "capabilities"@,
                    JsonModel::Object(
                        seq![
                            (
                                "m.room_versions"@,
                                JsonModel::Object(
                                    seq![
                                        ("default"@, JsonModel::Str("12"@)),
                                        (
                                            "available"@,
                                            JsonModel::Object(
                                                seq![("12"@, JsonModel::Str("stable"@))],
                                            ),
                                        ),
                                    ],
                                ),
                            ),
                        ],
                    ),
                ),
            ],
        ),
{
    let versions = Json::single("default", Json::string("12")).and(
        "available",
        Json::single("12", Json::string("stable")),
    );
    assert(versions.model()->Object_0 =~= seq![
        ("default"@, JsonModel::Str("12"@)),
        ("available"@, JsonModel::Object(seq![("12"@, JsonModel::Str("stable"@))])),
    ]);
    Json::single("capabilities", Json::single("m.room_versions", versions))
}

/// The user that makes a request.
#[derive(Debug, PartialEq, Eq)]
pub struct AuthUser(pub String);

impl AuthUser {
    /// The caller on a server of one user: that user, if the configured name makes an identifier.
    pub fn configured(user_id: String) -> (caller: Result<AuthUser, Response>)
        ensures
            match caller {
                Ok(caller) => valid_user_id(user_id@) && caller.0@ == user_id@,
                Err(response) => {
                    &&& !valid_user_id(user_id@)
                    &&& response.is_error(
                        INTERNAL_SERVER_ERROR,
                        "M_UNKNOWN"@,
                        user_id_complaint(user_id@),
                    )
                },
            },
    {
        match check_user_id(user_id.as_str()) {
            Ok(_) => Ok(AuthUser(user_id)),
            Err(complaint) => Err(
                error_response(INTERNAL_SERVER_ERROR, "M_UNKNOWN", complaint.as_str()),
            ),
        }
    }

    /// The caller on a server of several users: the one that the access token names.
    pub fn named(resolved: Result<String, TokenError>) -> (caller: Result<AuthUser, Response>)
        ensures
            match (resolved, caller) {
                (Ok(user), Ok(caller)) => caller.0@ == user@,
                (Err(TokenError::Missing), Err(response)) => response.is_error(
                    UNAUTHORIZED,
                    "M_MISSING_TOKEN"@,
                    "Missing access token"@,
                ),
                (Err(TokenError::Unknown), Err(response)) => response.is_error(
                    UNAUTHORIZED,
                    "M_UNKNOWN_TOKEN"@,
                    "Unrecognised access token"@,
                ),
                _ => false,
            },
    {
        match resolved {
            Ok(user) => Ok(AuthUser(user)),
            Err(TokenError::Missing) => Err(
                error_response(UNAUTHORIZED, "M_MISSING_TOKEN", "Missing access token"),
            ),
            Err(TokenError::Unknown) => Err(
                error_response(UNAUTHORIZED, "M_UNKNOWN_TOKEN", "Unrecognised access token"),
            ),
        }
    }
}

/// What can be wrong with an access token.
#[derive(Debug, PartialEq, Eq)]
pub enum TokenError {
    Missing,
    Unknown,
}

/// Why the server cannot start.
#[derive(Debug, PartialEq, Eq)]
pub enum StartupError {
    /// No file for the database could be made.
    Tempfile(String),
    /// The database could not be opened.
    Store(String),
}

impl StartupError {
    /// The error in words.
    pub open spec fn text(self) -> Seq<char> {
        match self {
            StartupError::Tempfile(reason) => "creating db tempfile: "@ + reason@,
            StartupError::Store(reason) => "opening sqlite store: "@ + reason@,
        }
    }

    /// The error in words.
    pub fn to_text(&self) -> (text: String)
        ensures
            text@ == self.text(),
    {
        match self {
            StartupError::Tempfile(reason) => "creating db tempfile: ".to_owned().concat(
                reason.as_str(),
            ),
            StartupError::Store(reason) => "opening sqlite store: ".to_owned().concat(
                reason.as_str(),
            ),
        }
    }
}

/// What a client reads of a session: who it is, its token, its server and its device.
pub proof fn session_is_read(
    user_id: Seq<char>,
    token: Seq<char>,
    server_name: Seq<char>,
    device_id: Seq<char>,
)
    ensures
        ({
            let body = session(user_id, token, server_name, device_id);
            &&& body.text_at("user_id"@) == Some(user_id)
            &&& body.text_at("access_token"@) == Some(token)
            &&& body.text_at("home_server"@) == Some(server_name)
            &&& body.text_at("device_id"@) == Some(device_id)
        }),
{
    reveal_strlit("user_id");
    reveal_strlit("access_token");
    reveal_strlit("home_server");
    reveal_strlit("device_id");
    let members = session(user_id, token, server_name, device_id)->Object_0;
    assert("user_id"@.len() == 7 && "access_token"@.len() == 12);
    assert("home_server"@.len() == 11 && "device_id"@.len() == 9);
    first_member_is_read(members, "user_id"@, 0);
    first_member_is_read(members, "access_token"@, 1);
    first_member_is_read(members, "home_server"@, 2);
    first_member_is_read(members, "device_id"@, 3);
}

/// Only a registration with an `auth` block gets a session: for the server's user, on the device that
/// it asks for, or else on the default one. Any other is answered 401 with a session for the steps.
pub proof fn registered_once_authorised(
    body: Json,
    user_id: &str,
    server_name: &str,
    response: Response,
)
    requires
        call_ensures(post_register, (&body, user_id, server_name), response),
    ensures
        ({
            let asked = body.model();
            let said = response.body.model();
            &&& asked.get("auth"@) is Some <==> response.status == 200
            &&& asked.get("auth"@) is None <==> response.status == 401
            &&& asked.get("auth"@) is None ==> said.text_at("access_token"@) is None
            &&& asked.get("auth"@) is Some ==> {
                &&& said.text_at("user_id"@) == Some(user_id@)
                &&& said.text_at("home_server"@) == Some(server_name@)
                &&& asked.get("device_id"@) matches Some(JsonModel::Str(device))
                    ==> said.text_at("device_id"@) == Some(device)
                &&& !(asked.get("device_id"@) matches Some(JsonModel::Str(_)))
                    ==> said.text_at("device_id"@) == Some("DEVICEID"@)
            }
        }),
{
    session_is_read(
        user_id@,
        "syt_1234567890abcdef"@,
        server_name@,
        wanted_device(body.model()),
    );
    reveal_strlit("flows");
    reveal_strlit("params");
    reveal_strlit("session");
    reveal_strlit("access_token");
    assert("flows"@.len() == 5 && "params"@.len() == 6 && "session"@.len() == 7);
    assert("access_token"@.len() == 12);
    first_member_is_read(register_flows()->Object_0, "access_token"@, 3);
}

/// A registration that is authorised goes on to provide the user that it names: by the local part,
/// where it gives a full identifier.
pub proof fn named_user_is_provided(
    body: Json,
    next: Registration,
    local: Seq<char>,
    server_name: Seq<char>,
)
    requires
        call_ensures(begin_registration, (&body,), next),
        !local.contains(':'),
        local.len() > 0 ==> local[0] != '@',
    ensures
        ({
            let asked = body.model();
            &&& asked.get("auth"@) is Some <==> next is Provision
            &&& next matches Registration::Provision { requested, device_id } ==> {
                &&& asked.text_at("username"@) == Some(local) ==> opt_text(requested) == Some(local)
                &&& asked.text_at("username"@) == Some("@"@ + local + ":"@ + server_name)
                    ==> opt_text(requested) == Some(local)
                &&& asked.text_at("username"@) is None ==> requested is None
                &&& asked.text_at("device_id"@) matches Some(device) ==> device_id@ == device
                &&& asked.text_at("device_id"@) is None ==> device_id@ == "DEVICEID"@
            }
        }),
{
    localpart_round_trips(local, server_name);
}

/// A login names its user in its identifier, or else by itself.
pub proof fn login_names_its_user(
    body: Json,
    requested: Option<String>,
    local: Seq<char>,
    server_name: Seq<char>,
)
    requires
        call_ensures(requested_login, (&body,), requested),
        !local.contains(':'),
        local.len() > 0 ==> local[0] != '@',
    ensures
        ({
            let asked = body.model();
            let within = match asked.get("identifier"@) {
                Some(identifier) => identifier.get("user"@),
                None => None,
            };
            let full = "@"@ + local + ":"@ + server_name;
            &&& within == Some(JsonModel::Str(local)) || within == Some(JsonModel::Str(full))
                ==> opt_text(requested) == Some(local)
            &&& within is None && (asked.text_at("user"@) == Some(local) || asked.text_at("user"@)
                == Some(full)) ==> opt_text(requested) == Some(local)
            &&& within is None && asked.text_at("user"@) is None ==> requested is None
            &&& within is Some && !(within->0 is Str) ==> requested is None
        }),
{
    localpart_round_trips(local, server_name);
}

/// A login is answered with a session for the server's user.
pub proof fn login_is_answered(user_id: &str, server_name: &str, response: Response)
    requires
        call_ensures(post_login, (user_id, server_name), response),
    ensures
        response.status == 200,
        response.body.model().text_at("user_id"@) == Some(user_id@),
        response.body.model().text_at("home_server"@) == Some(server_name@),
        response.body.model().text_at("device_id"@) == Some("DEVICEID"@),
        response.body.model().text_at("access_token"@) == Some("syt_1234567890abcdef"@),
{
    session_is_read(user_id@, "syt_1234567890abcdef"@, server_name@, "DEVICEID"@);
}

/// A user who was provided gets a session with their token; one who was refused is told why, with the
/// status 400, and gets none.
pub proof fn provided_or_refused(
    provided: Result<(String, String), String>,
    server_name: &str,
    device_id: &str,
    response: Response,
)
    requires
        call_ensures(answer_provision, (provided, server_name, device_id), response),
    ensures
        provided is Ok <==> response.status == 200,
        provided is Err <==> response.status == 400,
        provided matches Ok(user) ==> {
            let said = response.body.model();
            &&& said.text_at("user_id"@) == Some(user.0@)
            &&& said.text_at("access_token"@) == Some(user.1@)
            &&& said.text_at("home_server"@) == Some(server_name@)
            &&& said.text_at("device_id"@) == Some(device_id@)
        },
        provided matches Err(complaint) ==> {
            let said = response.body.model();
            &&& said.text_at("errcode"@) == Some("M_INVALID_USERNAME"@)
            &&& said.text_at("error"@) == Some(complaint@)
            &&& said.text_at("access_token"@) is None
        },
{
    match provided {
        Ok((user, token)) => session_is_read(user@, token@, server_name@, device_id@),
        Err(complaint) => {
            error_is_read("M_INVALID_USERNAME"@, complaint@);
            reveal_strlit("errcode");
            reveal_strlit("error");
            reveal_strlit("access_token");
            assert("errcode"@.len() == 7 && "error"@.len() == 5);
            assert("access_token"@.len() == 12);
            first_member_is_read(
                error_body("M_INVALID_USERNAME"@, complaint@)->Object_0,
                "access_token"@,
                2,
            );
        },
    }
}

/// Who makes a request is the user that the access token names; without a token, or with one that
/// names no one, the request is answered 401.
pub proof fn token_names_the_caller(
    resolved: Result<String, TokenError>,
    caller: Result<AuthUser, Response>,
)
    requires
        call_ensures(AuthUser::named, (resolved,), caller),
    ensures
        resolved is Ok <==> caller is Ok,
        resolved matches Ok(user) ==> caller->Ok_0.0@ == user@,
        caller matches Err(response) ==> response.status == 401,
        resolved == Err::<String, TokenError>(TokenError::Missing)
            ==> caller->Err_0.body.model().text_at("errcode"@) == Some("M_MISSING_TOKEN"@),
        resolved == Err::<String, TokenError>(TokenError::Unknown)
            ==> caller->Err_0.body.model().text_at("errcode"@) == Some("M_UNKNOWN_TOKEN"@),
{
    error_is_read("M_MISSING_TOKEN"@, "Missing access token"@);
    error_is_read("M_UNKNOWN_TOKEN"@, "Unrecognised access token"@);
}

/// On a server of one user, whoever makes a request is that user, if the name is one; else the server
/// is at fault.
pub proof fn configured_user_is_the_caller(user_id: String, caller: Result<AuthUser, Response>)
    requires
        call_ensures(AuthUser::configured, (user_id,), caller),
    ensures
        caller is Ok <==> valid_user_id(user_id@),
        caller matches Ok(caller) ==> caller.0@ == user_id@,
        caller matches Err(response) ==> response.status == 500,
{
}

/// A user is called by an at sign, the local part, a colon and the server; the local part is read back
/// from it.
pub proof fn user_is_called(
    local: &str,
    server_name: &str,
    id: String,
    full: &str,
    read: String,
)
    requires
        call_ensures(user_id, (local, server_name), id),
        full@ == id@,
        call_ensures(localpart_of, (full,), read),
        !local@.contains(':'),
    ensures
        id@ == "@"@ + local@ + ":"@ + server_name@,
        read@ == local@,
{
    localpart_round_trips(local@, server_name@);
}

} // verus!
