//! Matrix identifiers. Whether a text is one is decided by `ruma`; the library keeps the text.

use ruma::{EventId, RoomAliasId, RoomId, RoomVersionId, ServerName, UserId};
use vstd::prelude::*;
use vstd::utf8::encode_utf8;

use crate::text::{
    bounded_number, chars_of, find, number_chars, position, position_is, position_is_first, slice,
    text_of,
};

verus! {

/// The room version this server speaks.
pub const ROOM_VERSION_ID: &'static str = "org.matrix.msc4242.12";

/// The most bytes an identifier may have.
pub const ID_MAX_BYTES: usize = 255;

/// Whether `ServerName::parse` accepts a text.
pub uninterp spec fn accepted_server_name(s: Seq<char>) -> bool;

/// The characters that a host name, an address in brackets and a port are made of.
pub open spec fn server_name_char(c: char) -> bool {
    ||| 'a' <= c <= 'z'
    ||| 'A' <= c <= 'Z'
    ||| '0' <= c <= '9'
    ||| c == '-'
    ||| c == '.'
    ||| c == ':'
    ||| c == '['
    ||| c == ']'
    ||| c == '+'
}

/// The characters that a host name is made of.
pub open spec fn host_char(c: char) -> bool {
    ||| 'a' <= c <= 'z'
    ||| 'A' <= c <= 'Z'
    ||| '0' <= c <= '9'
    ||| c == '-'
    ||| c == '.'
}

/// A host name or an address without brackets, and a port behind a colon where there is one, in at
/// most 261 characters.
pub open spec fn plain_server_name(s: Seq<char>) -> bool {
    let end = position(s, ':', 0);
    &&& s.len() <= 261
    &&& 0 < end
    &&& forall|i: int| 0 <= i < end ==> host_char(#[trigger] s[i])
    &&& end < s.len() ==> bounded_number(s.skip(end + 1), 65535) is Some
}

/// A server name. Which addresses may stand in brackets `ruma` decides; such a name is at most 261
/// characters long, and all of them are such as an address or a port is made of.
pub open spec fn valid_server_name(s: Seq<char>) -> bool {
    if s.len() > 0 && s[0] == '[' {
        &&& accepted_server_name(s)
        &&& s.len() <= 261
        &&& forall|i: int| 0 <= i < s.len() ==> server_name_char(#[trigger] s[i])
    } else {
        plain_server_name(s)
    }
}

/// The server of an identifier: what follows its first colon.
pub open spec fn server_part(s: Seq<char>) -> Seq<char> {
    s.skip(position(s, ':', 0) + 1)
}

/// A sigil, a local part without a NUL, a colon and a server name, in at most 255 bytes.
pub open spec fn sigil_local_server(s: Seq<char>, sigil: char) -> bool {
    &&& encode_utf8(s).len() <= 255
    &&& s.len() > 0 && s[0] == sigil
    &&& position(s, ':', 0) < s.len()
    &&& forall|i: int| 0 <= i < position(s, ':', 0) ==> s[i] != '\0'
    &&& valid_server_name(server_part(s))
}

/// A user identifier, such as `@alice:example.org`.
pub open spec fn valid_user_id(s: Seq<char>) -> bool {
    sigil_local_server(s, '@')
}

/// A room alias, such as `#lobby:example.org`.
pub open spec fn valid_room_alias(s: Seq<char>) -> bool {
    sigil_local_server(s, '#')
}

/// A room identifier: at most 255 bytes, beginning with `!`, without a NUL.
pub open spec fn valid_room_id(s: Seq<char>) -> bool {
    &&& encode_utf8(s).len() <= 255
    &&& s.len() > 0 && s[0] == '!'
    &&& forall|i: int| 0 <= i < s.len() ==> s[i] != '\0'
}

/// What is said of a text that is no server name.
pub open spec fn server_name_complaint() -> Seq<char> {
    "server name is not a valid IP address or domain name"@
}

/// What is said of a text that is no room identifier: the first thing that is wrong with it.
pub open spec fn room_id_complaint(s: Seq<char>) -> Seq<char> {
    if encode_utf8(s).len() > 255 {
        "ID exceeds 255 bytes"@
    } else if s.len() == 0 || s[0] != '!' {
        "leading sigil is incorrect or missing"@
    } else {
        "identifier contains invalid characters"@
    }
}

/// What is said of a text that is no user identifier: the first thing that is wrong with it.
pub open spec fn user_id_complaint(s: Seq<char>) -> Seq<char> {
    if encode_utf8(s).len() > 255 {
        "ID exceeds 255 bytes"@
    } else if s.len() == 0 || s[0] != '@' {
        "leading sigil is incorrect or missing"@
    } else if position(s, ':', 0) >= s.len() {
        "required colon is missing"@
    } else if !valid_server_name(server_part(s)) {
        server_name_complaint()
    } else {
        "identifier contains invalid characters"@
    }
}

/// An event identifier: it begins with `$`; one with a colon has a server name after it, and
/// at most 255 bytes.
pub open spec fn valid_event_id(s: Seq<char>) -> bool {
    &&& s.len() > 0 && s[0] == '$'
    &&& position(s, ':', 0) < s.len() ==> {
        &&& encode_utf8(s).len() <= 255
        &&& valid_server_name(server_part(s))
    }
}

/// A room version: 1 to 32 characters, each an ASCII letter, an ASCII digit, a dot or a hyphen.
pub open spec fn valid_room_version(s: Seq<char>) -> bool {
    &&& 0 < s.len() <= 32
    &&& forall|i: int|
        0 <= i < s.len() ==> {
            ||| 'a' <= #[trigger] s[i] <= 'z'
            ||| 'A' <= s[i] <= 'Z'
            ||| '0' <= s[i] <= '9'
            ||| s[i] == '.'
            ||| s[i] == '-'
        }
}

/// `RoomVersionId::try_from`, asked whether it accepts the text: exactly the room versions.
#[verifier::external_body]
pub(crate) fn is_room_version(s: &str) -> (ok: bool)
    ensures
        ok == valid_room_version(s@),
{
    RoomVersionId::try_from(s).is_ok()
}

/// `ServerName::parse`, with its error as text: which texts it accepts, and that it says the same
/// of every other. Of a text that begins with a bracket, only the length and the characters of one
/// that it accepts are stated.
#[verifier::external_body]
pub(crate) fn check_server_name(s: &str) -> (checked: Result<(), String>)
    ensures
        checked is Ok == accepted_server_name(s@),
        checked is Ok == valid_server_name(s@),
        checked matches Err(complaint) ==> complaint@ == server_name_complaint(),
{
    ServerName::parse(s).map(|_| ()).map_err(|e| e.to_string())
}

/// Whether a text is a server name.
pub fn is_server_name(s: &str) -> (ok: bool)
    ensures
        ok == valid_server_name(s@),
{
    check_server_name(s).is_ok()
}

/// `UserId::parse`, with its error as text: it accepts exactly the user identifiers, and says of
/// any other text the first thing that is wrong: its length, its sigil, a missing colon, its
/// server name, or a NUL in its local part.
#[verifier::external_body]
pub(crate) fn check_user_id(s: &str) -> (checked: Result<(), String>)
    ensures
        checked is Ok == valid_user_id(s@),
        checked matches Err(complaint) ==> complaint@ == user_id_complaint(s@),
{
    UserId::parse(s).map(|_| ()).map_err(|e| e.to_string())
}

/// `RoomId::parse`, with its error as text: it accepts exactly the room identifiers, and says of
/// any other text the first thing that is wrong: its length, its sigil, or a NUL in it.
#[verifier::external_body]
pub(crate) fn check_room_id(s: &str) -> (checked: Result<(), String>)
    ensures
        checked is Ok == valid_room_id(s@),
        checked matches Err(complaint) ==> complaint@ == room_id_complaint(s@),
{
    RoomId::parse(s).map(|_| ()).map_err(|e| e.to_string())
}

/// `EventId::parse`, asked whether it accepts the text: exactly the event identifiers.
#[verifier::external_body]
pub(crate) fn is_event_id(s: &str) -> (ok: bool)
    ensures
        ok == valid_event_id(s@),
{
    EventId::parse(s).is_ok()
}

/// `RoomAliasId::parse`, asked whether it accepts the text: exactly the room aliases.
#[verifier::external_body]
pub(crate) fn is_room_alias(s: &str) -> (ok: bool)
    ensures
        ok == valid_room_alias(s@),
{
    RoomAliasId::parse(s).is_ok()
}

/// Whether a text is a user identifier.
pub fn is_user_id(s: &str) -> (ok: bool)
    ensures
        ok == valid_user_id(s@),
{
    check_user_id(s).is_ok()
}

/// Whether a text is a room identifier.
pub fn is_room_id(s: &str) -> (ok: bool)
    ensures
        ok == valid_room_id(s@),
{
    check_room_id(s).is_ok()
}

/// The server name in an identifier.
pub fn server_of(id: &str) -> (server: String)
    requires
        position(id@, ':', 0) < id@.len(),
    ensures
        server@ == server_part(id@),
{
    let s = chars_of(id);
    let at = find(&s, ':', 0);
    let rest = slice(&s, at + 1, s.len());
    assert(rest@ =~= server_part(id@));
    text_of(&rest)
}

/// The server of a user, where the text is a user identifier.
pub fn user_server(id: &str) -> (server: Option<String>)
    ensures
        match server {
            Some(server) => valid_user_id(id@) && server@ == server_part(id@),
            None => !valid_user_id(id@),
        },
{
    if is_user_id(id) {
        Some(server_of(id))
    } else {
        None
    }
}

/// A server name is not empty and at most 261 characters long, and all of them are such as a host,
/// an address or a port is made of.
pub proof fn server_name_chars(s: Seq<char>)
    requires
        valid_server_name(s),
    ensures
        0 < s.len() <= 261,
        forall|i: int| 0 <= i < s.len() ==> server_name_char(#[trigger] s[i]),
{
    let end = position(s, ':', 0);
    if s.len() == 0 || s[0] != '[' {
        position_is_first(s, ':', 0);
        if end < s.len() {
            let port = s.skip(end + 1);
            number_chars(port);
            assert forall|i: int| end < i < s.len() implies server_name_char(#[trigger] s[i]) by {
                assert(port[i - end - 1] == s[i]);
            }
        }
    }
}

/// The server of an identifier is what follows its first colon, whatever colons are in it.
pub proof fn server_is_after_the_first_colon(local: Seq<char>, server: Seq<char>)
    requires
        !local.contains(':'),
    ensures
        server_part(local.push(':') + server) == server,
{
    let s = local.push(':') + server;
    assert forall|i: int| 0 <= i < local.len() implies s[i] != ':' by {
        assert(s[i] == local[i]);
    }
    assert(s[local.len() as int] == ':');
    position_is(s, ':', 0, local.len() as int);
    assert(s.skip(local.len() as int + 1) =~= server);
}

/// The server that is read of an identifier is what follows its first colon.
pub proof fn server_follows_the_first_colon(
    id: &str,
    local: Seq<char>,
    server: Seq<char>,
    read: String,
)
    requires
        call_ensures(server_of, (id,), read),
        id@ == local.push(':') + server,
        !local.contains(':'),
    ensures
        read@ == server,
{
    server_is_after_the_first_colon(local, server);
}

} // verus!
