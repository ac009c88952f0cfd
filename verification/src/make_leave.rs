//! `GET /_matrix/federation/v1/make_leave/{roomId}/{userId}`: the first half of the federated
//! leave, where this server is the resident. There is no check whether the user may leave: the
//! event itself is checked when it comes back.

use vstd::prelude::*;

use crate::auth::{attested, auth_refusal, authenticated_origin};
use crate::ids::{server_part, valid_user_id};
use crate::make_join::{membership_draft, offers, ver_includes};
use crate::response::FedError;
use crate::rooms::{text_member, text_member_is_read, Draft};
use crate::send::{lives_on, user_lives_on};

verus! {

/// What is built for a request, once its identifiers are known to be good: the template of a leave
/// and the version it is of, where the requesting server owns the user, the room exists, and the
/// requester speaks its version.
pub fn plan_make_leave(
    user_id: &str,
    header: Option<&str>,
    our_name: &str,
    query: Option<&str>,
    room_version: Result<Option<String>, String>,
) -> (plan: Result<(Draft, String), FedError>)
    ensures
        match auth_refusal(header, our_name@) {
            Some(refusal) => plan matches Err(FedError::Unauthorized(m)) && m@ == refusal,
            None => if !lives_on(user_id@, attested(header)->0) {
                plan matches Err(FedError::Forbidden(m)) && m@
                    == "origin server does not own the leaving user"@
            } else {
                match room_version {
                    Err(e) => plan == Err::<(Draft, String), FedError>(FedError::Storage(e)),
                    Ok(None) => plan == Err::<(Draft, String), FedError>(FedError::RoomNotFound),
                    Ok(Some(version)) => if !offers(query, version@) {
                        plan == Err::<(Draft, String), FedError>(
                            FedError::IncompatibleRoomVersion(version),
                        )
                    } else {
                        plan is Ok && plan->Ok_0.1 == version && plan->Ok_0.0@ == crate::rooms::draft(
                            user_id@,
                            "m.room.member"@,
                            user_id@,
                            text_member("membership"@, "leave"@),
                        )
                    },
                }
            },
        },
{
    let origin = match authenticated_origin(header, our_name) {
        Ok(origin) => origin,
        Err(e) => return Err(e),
    };
    if !user_lives_on(user_id, origin.as_str()) {
        return Err(FedError::Forbidden("origin server does not own the leaving user"));
    }
    let version = match room_version {
        Err(e) => return Err(FedError::Storage(e)),
        Ok(None) => return Err(FedError::RoomNotFound),
        Ok(Some(version)) => version,
    };
    if !ver_includes(query, version.as_str()) {
        return Err(FedError::IncompatibleRoomVersion(version));
    }
    Ok((membership_draft(user_id, "leave"), version))
}

/// A server gets a template of a leave for its own users alone, of a room that is known here and
/// whose version it speaks; the leave is the user's own.
pub proof fn template_of_own_leave(
    user_id: &str,
    header: Option<&str>,
    our_name: &str,
    query: Option<&str>,
    room_version: Result<Option<String>, String>,
    plan: Result<(Draft, String), FedError>,
)
    requires
        call_ensures(plan_make_leave, (user_id, header, our_name, query, room_version), plan),
    ensures
        plan is Ok <==> {
            &&& auth_refusal(header, our_name@) is None
            &&& valid_user_id(user_id@) && Some(server_part(user_id@)) == attested(header)
            &&& room_version is Ok && room_version->Ok_0 is Some
            &&& offers(query, room_version->Ok_0->0@)
        },
        plan matches Ok((d, version)) ==> version == room_version->Ok_0->0 && d@.sender == user_id@
            && d@.event_type == "m.room.member"@ && d@.state_key == Some(user_id@)
            && d@.content.text_at("membership"@) == Some("leave"@),
        auth_refusal(header, our_name@) is Some ==> plan is Err && plan->Err_0 is Unauthorized,
{
    text_member_is_read("membership"@, "leave"@);
}

} // verus!
