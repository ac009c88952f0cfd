//! `X-Matrix` federation auth: the origin of a request as its network attests it, not a proof.
//!
//! Requests carry only `origin` and `destination`, no key and no signature. The origin is trusted
//! solely because the network authenticated the peer. It is an identity hint: it must not bypass
//! the auth rules of a room.

use vstd::prelude::*;
use vstd::string::StringExecFns;

use crate::ids::{is_server_name, server_name_char, server_name_chars, valid_server_name};
use crate::response::FedError;
use crate::text::{
    begins_with, char_views, chars_of, cut, is_char, pieces, position_is,
    same_text, split, split_on, split_once, strip, strip_prefix, stripped, text_of, trim,
    trim_end, trim_start, trimmed, white_space,
};

verus! {

/// What one auth parameter says of the origin: nothing, or that it is a server name (`Some`), or
/// that it is none (`None` inside).
pub open spec fn param_origin(part: Seq<char>) -> Option<Option<Seq<char>>> {
    match cut(part, '=') {
        Some((key, value)) if trimmed(key) == "origin"@ => {
            let name = stripped(trimmed(value), '"');
            if valid_server_name(name) {
                Some(Some(name))
            } else {
                Some(None)
            }
        },
        _ => None,
    }
}

/// What a list of auth parameters says of the origin: the last one that speaks of it decides.
pub open spec fn params_origin(parts: Seq<Seq<char>>) -> Option<Seq<char>>
    decreases parts.len(),
{
    if parts.len() == 0 {
        None
    } else {
        match param_origin(parts.last()) {
            Some(origin) => origin,
            None => params_origin(parts.drop_last()),
        }
    }
}

/// The origin that a header value gives.
pub open spec fn header_origin(value: Seq<char>) -> Option<Seq<char>> {
    if begins_with(value, "X-Matrix "@) {
        params_origin(split(value.skip("X-Matrix "@.len() as int), ','))
    } else {
        None
    }
}

/// Parse the `origin` out of an `X-Matrix origin="…",destination="…"` header value. Tolerant of
/// missing quotes and of other parameters; the destination is not enforced. `None` if the scheme
/// is absent, or the origin is missing or not a valid server name.
pub fn parse_origin(value: &str) -> (origin: Option<String>)
    ensures
        match origin {
            Some(origin) => header_origin(value@) == Some(origin@) && valid_server_name(origin@),
            None => header_origin(value@) is None,
        },
{
    let chars = chars_of(value);
    let params = match strip_prefix(&chars, "X-Matrix ") {
        Some(params) => params,
        None => return None,
    };
    let parts = split_on(&params, ',');
    let ghost all = char_views(parts@);
    let mut origin: Option<String> = None;
    let mut i: usize = 0;
    assert(all.take(0) =~= Seq::empty());
    while i < parts.len()
        invariant
            i <= parts.len(),
            all == char_views(parts@),
            match origin {
                Some(origin) => params_origin(all.take(i as int)) == Some(origin@)
                    && valid_server_name(origin@),
                None => params_origin(all.take(i as int)) is None,
            },
        decreases parts.len() - i,
    {
        assert(all.take(i + 1).drop_last() =~= all.take(i as int));
        assert(all.take(i + 1).last() == parts@[i as int]@);
        match split_once(&parts[i], '=') {
            Some((key, val)) => {
                let key = text_of(&trim(&key));
                if same_text(key.as_str(), "origin") {
                    let name = text_of(&strip(&trim(&val), '"'));
                    if is_server_name(name.as_str()) {
                        origin = Some(name);
                    } else {
                        origin = None;
                    }
                }
            },
            None => {},
        }
        i += 1;
    }
    assert(all.take(i as int) =~= all);
    origin
}

/// The origin that a request's header attests, if it has one that can be read.
pub open spec fn attested(header: Option<&str>) -> Option<Seq<char>> {
    match header {
        Some(value) => header_origin(value@),
        None => None,
    }
}

/// Why a request is refused for what its header says of its origin, if it is.
pub open spec fn auth_refusal(header: Option<&str>, our_name: Seq<char>) -> Option<Seq<char>> {
    if header is None {
        Some("missing X-Matrix authorization header"@)
    } else if attested(header) is None {
        Some("malformed X-Matrix authorization header"@)
    } else if attested(header) == Some(our_name) {
        Some("X-Matrix origin must not claim to be this server"@)
    } else {
        None
    }
}

/// Authenticate an inbound federation request from its `X-Matrix` header and return the origin
/// server. Refuses a missing or unparseable header, and an origin that claims to be us.
pub fn authenticated_origin(header: Option<&str>, our_name: &str) -> (origin: Result<
    String,
    FedError,
>)
    ensures
        match auth_refusal(header, our_name@) {
            Some(refusal) => origin matches Err(FedError::Unauthorized(m)) && m@ == refusal,
            None => origin matches Ok(origin) && attested(header) == Some(origin@)
                && valid_server_name(origin@),
        },
{
    let value = match header {
        Some(value) => value,
        None => return Err(FedError::Unauthorized("missing X-Matrix authorization header")),
    };
    let origin = match parse_origin(value) {
        Some(origin) => origin,
        None => return Err(FedError::Unauthorized("malformed X-Matrix authorization header")),
    };
    if same_text(origin.as_str(), our_name) {
        return Err(FedError::Unauthorized("X-Matrix origin must not claim to be this server"));
    }
    Ok(origin)
}

/// The header value that names an origin and a destination.
pub open spec fn x_matrix_value(origin: Seq<char>, dest: Seq<char>) -> Seq<char> {
    "X-Matrix origin=\""@ + origin + "\",destination=\""@ + dest + "\""@
}

/// The header value of a request from `origin` to `dest`.
pub fn x_matrix(origin: &str, dest: &str) -> (value: String)
    ensures
        value@ == x_matrix_value(origin@, dest@),
{
    let mut value = "X-Matrix origin=\"".to_owned();
    value.append(origin);
    value.append("\",destination=\"");
    value.append(dest);
    value.append("\"");
    value
}

proof fn quoted_is_stripped(name: Seq<char>)
    requires
        valid_server_name(name),
    ensures
        stripped(trimmed("\""@ + name + "\""@), '"') == name,
{
    reveal_strlit("\"");
    server_name_chars(name);
    let quoted = "\""@ + name + "\""@;
    let white = |c: char| white_space(c);
    let quote = is_char('"');
    assert(quoted[0] == '"' && quoted.last() == '"');
    assert(trim_start(quoted, white) == quoted);
    assert(trim_end(quoted, white) == quoted);
    assert(quoted.drop_first() =~= name + "\""@);
    assert(server_name_char(name[0]));
    assert((name + "\""@)[0] == name[0]);
    assert(trim_start(name + "\""@, quote) == name + "\""@);
    assert(trim_start(quoted, quote) == name + "\""@);
    assert((name + "\""@).last() == '"');
    assert((name + "\""@).drop_last() =~= name);
    assert(server_name_char(name[name.len() - 1]));
    assert(trim_end(name, quote) == name);
}

proof fn param_of(key: Seq<char>, name: Seq<char>)
    requires
        valid_server_name(name),
        key.len() > 0,
        forall|i: int| 0 <= i < key.len() ==> 'a' <= #[trigger] key[i] <= 'z',
    ensures
        param_origin(key + "=\""@ + name + "\""@) == (if key == "origin"@ {
            Some(Some(name))
        } else {
            None
        }),
{
    reveal_strlit("\"");
    reveal_strlit("=\"");
    let part = key + "=\""@ + name + "\""@;
    let white = |c: char| white_space(c);
    position_is(part, '=', 0, key.len() as int);
    assert(part.take(key.len() as int) =~= key);
    assert(part.skip(key.len() as int + 1) =~= "\""@ + name + "\""@);
    assert('a' <= key[0] <= 'z' && 'a' <= key[key.len() - 1] <= 'z');
    assert(trim_start(key, white) == key);
    assert(trim_end(key, white) == key);
    quoted_is_stripped(name);
}

/// What one server puts into the header the other reads: the origin comes back as it was sent.
pub proof fn origin_round_trips(origin: Seq<char>, dest: Seq<char>)
    requires
        valid_server_name(origin),
        valid_server_name(dest),
    ensures
        header_origin(x_matrix_value(origin, dest)) == Some(origin),
{
    server_name_chars(origin);
    server_name_chars(dest);
    reveal_strlit("X-Matrix ");
    reveal_strlit("X-Matrix origin=\"");
    reveal_strlit("\",destination=\"");
    reveal_strlit("\"");
    reveal_strlit("=\"");
    reveal_strlit("origin");
    reveal_strlit("destination");
    let value = x_matrix_value(origin, dest);
    let first = "origin"@ + "=\""@ + origin + "\""@;
    let second = "destination"@ + "=\""@ + dest + "\""@;
    assert(value.take("X-Matrix "@.len() as int) =~= "X-Matrix "@);
    let rest = value.skip("X-Matrix "@.len() as int);
    let comma = first.len() as int;
    assert(rest =~= first + seq![','] + second);
    assert forall|i: int| 0 <= i < comma implies rest[i] != ',' by {
        if 8 <= i < comma - 1 {
            assert(rest[i] == origin[i - 8]);
            assert(server_name_char(origin[i - 8]));
        }
    }
    position_is(rest, ',', 0, comma);
    assert(rest.subrange(0, comma) =~= first);
    assert forall|i: int| comma + 1 <= i < rest.len() implies rest[i] != ',' by {
        let j = i - comma - 1;
        assert(rest[i] == second[j]);
        if 13 <= j < second.len() - 1 {
            assert(second[j] == dest[j - 13]);
            assert(server_name_char(dest[j - 13]));
        }
    }
    position_is(rest, ',', comma + 1, rest.len() as int);
    assert(rest.subrange(comma + 1, rest.len() as int) =~= second);
    assert(pieces(rest, ',', comma + 1) == seq![second]);
    assert(split(rest, ',') =~= seq![first, second]);
    param_of("origin"@, origin);
    param_of("destination"@, dest);
    let parts = seq![first, second];
    assert(parts.last() == second);
    assert(parts.drop_last() =~= seq![first]);
    assert("origin"@.len() != "destination"@.len());
    assert(params_origin(parts.drop_last()) == Some(origin));
}

/// The origin of a request is read from its header as the sender wrote it, and taken unless it claims to
/// be this server.
pub proof fn sender_is_known(
    origin: &str,
    dest: &str,
    value: String,
    header: &str,
    our_name: &str,
    read: Result<String, FedError>,
)
    requires
        valid_server_name(origin@),
        valid_server_name(dest@),
        call_ensures(x_matrix, (origin, dest), value),
        header@ == value@,
        call_ensures(authenticated_origin, (Some(header), our_name), read),
    ensures
        origin@ != our_name@ ==> read is Ok && read->Ok_0@ == origin@,
        origin@ == our_name@ ==> read is Err,
        read matches Err(e) ==> e is Unauthorized,
{
    origin_round_trips(origin@, dest@);
}

/// Nobody is let in without a header, nor by one that names no server, nor in the name of this server.
pub proof fn unattested_is_refused(header: Option<&str>, our_name: &str, read: Result<String, FedError>)
    requires
        call_ensures(authenticated_origin, (header, our_name), read),
    ensures
        header is None ==> read is Err,
        header matches Some(value) ==> (header_origin(value@) is None ==> read is Err),
        read matches Ok(origin) ==> origin@ != our_name@ && valid_server_name(origin@),
        read matches Ok(origin) ==> header is Some && header_origin(header->0@) == Some(origin@),
        read matches Err(e) ==> e is Unauthorized,
{
}

/// Of several parameters that name an origin the last one counts; one that names no server undoes those
/// before it; others change nothing.
pub proof fn last_origin_counts(parts: Seq<Seq<char>>, part: Seq<char>)
    ensures
        param_origin(part) is None ==> params_origin(parts.push(part)) == params_origin(parts),
        param_origin(part) matches Some(named) ==> params_origin(parts.push(part)) == named,
        params_origin(Seq::empty()) is None,
{
    assert(parts.push(part).drop_last() =~= parts);
}

/// An origin is read without quotes as well.
pub proof fn quotes_may_be_left_out(name: Seq<char>)
    requires
        valid_server_name(name),
    ensures
        param_origin("origin"@.push('=') + name) == Some(Some(name)),
        param_origin("origin"@ + "=\""@ + name + "\""@) == Some(Some(name)),
{
    reveal_strlit("origin");
    server_name_chars(name);
    let key = "origin"@;
    let part = key.push('=') + name;
    let white = |c: char| white_space(c);
    let quote = is_char('"');
    assert forall|i: int| 0 <= i < key.len() implies part[i] != '=' by {
        assert(part[i] == key[i]);
    }
    position_is(part, '=', 0, 6);
    assert(part.take(6) =~= key);
    assert(part.skip(7) =~= name);
    assert(key[0] == 'o' && key[5] == 'n');
    assert(trim_start(key, white) == key);
    assert(trim_end(key, white) == key);
    assert(server_name_char(name[0]) && server_name_char(name[name.len() - 1]));
    assert(trim_start(name, white) == name);
    assert(trim_end(name, white) == name);
    assert(trim_start(name, quote) == name);
    assert(trim_end(name, quote) == name);
    param_of(key, name);
}

} // verus!
