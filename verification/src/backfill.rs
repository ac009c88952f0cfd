//! `GET /_matrix/federation/v1/backfill/{roomId}`: walks a room's timeline back from the events
//! that the query names, and answers with the events found, newest first.

use vstd::prelude::*;
use vstd::utf8::{
    decode_utf8, encode_utf8, encode_utf8_decode_utf8, encode_utf8_valid_utf8, valid_utf8,
};

use crate::auth::{attested, auth_refusal, authenticated_origin};
use crate::event::{event_models, Event, EventModel};
use crate::ids::{is_event_id, is_room_id, valid_event_id, valid_room_id};
use crate::response::FedError;
use crate::text::{
    bounded_number, char_views, chars_of, cut, decimal, number_of_decimal, parse_number,
    same_text, split, split_on, split_once, text_of, texts,
};

verus! {

/// How many events are answered where the request does not say.
pub const DEFAULT_LIMIT: u32 = 10;

/// The most events that are answered.
pub const MAX_LIMIT: u32 = 100;

/// `String::from_utf8`: the text that some bytes encode, if they are valid UTF-8.
#[verifier::external_body]
fn utf8_text(bytes: Vec<u8>) -> (text: Option<String>)
    ensures
        match text {
            Some(text) => valid_utf8(bytes@) && text@ == decode_utf8(bytes@),
            None => !valid_utf8(bytes@),
        },
{
    String::from_utf8(bytes).ok()
}

/// The value of a hexadecimal digit.
pub open spec fn hex_value(b: u8) -> Option<u8> {
    if 0x30 <= b <= 0x39 {
        Some((b - 0x30) as u8)
    } else if 0x61 <= b <= 0x66 {
        Some((b - 0x61 + 10) as u8)
    } else if 0x41 <= b <= 0x46 {
        Some((b - 0x41 + 10) as u8)
    } else {
        None
    }
}

fn hex(b: u8) -> (v: Option<u8>)
    ensures
        v == hex_value(b),
        v matches Some(v) ==> v < 16,
{
    if 0x30 <= b && b <= 0x39 {
        Some(b - 0x30)
    } else if 0x61 <= b && b <= 0x66 {
        Some(b - 0x61 + 10)
    } else if 0x41 <= b && b <= 0x46 {
        Some(b - 0x41 + 10)
    } else {
        None
    }
}

/// The bytes that form-encoded bytes stand for, from `from` on: a plus sign stands for a space, a
/// percent sign and two hexadecimal digits for a byte, anything else for itself. A percent sign
/// that two digits do not follow stands for nothing.
pub open spec fn unescaped(bytes: Seq<u8>, from: int) -> Option<Seq<u8>>
    decreases bytes.len() - from,
{
    if from < 0 || from >= bytes.len() {
        Some(Seq::empty())
    } else if bytes[from] == 0x25 {
        if from + 2 < bytes.len() && hex_value(bytes[from + 1]) is Some && hex_value(
            bytes[from + 2],
        ) is Some {
            match unescaped(bytes, from + 3) {
                Some(rest) => Some(
                    seq![
                        (hex_value(bytes[from + 1])->0 * 16 + hex_value(bytes[from + 2])->0) as u8,
                    ] + rest,
                ),
                None => None,
            }
        } else {
            None
        }
    } else {
        match unescaped(bytes, from + 1) {
            Some(rest) => Some(
                seq![
                    if bytes[from] == 0x2b {
                        0x20u8
                    } else {
                        bytes[from]
                    },
                ] + rest,
            ),
            None => None,
        }
    }
}

/// The text that a form-encoded text stands for, if it is well formed and stands for a text.
pub open spec fn percent_decoded(s: Seq<char>) -> Option<Seq<char>> {
    match unescaped(encode_utf8(s), 0) {
        Some(bytes) if valid_utf8(bytes) => Some(decode_utf8(bytes)),
        _ => None,
    }
}

/// Percent-decode a single `application/x-www-form-urlencoded` value. `None` for a malformed or
/// incomplete escape, and for output that is not valid UTF-8.
pub fn percent_decode(s: &str) -> (decoded: Option<String>)
    ensures
        match decoded {
            Some(decoded) => percent_decoded(s@) == Some(decoded@),
            None => percent_decoded(s@) is None,
        },
{
    let bytes = s.as_bytes();
    let mut out: Vec<u8> = Vec::new();
    let mut i: usize = 0;
    assert(unescaped(bytes@, 0) is Some ==> out@ + unescaped(bytes@, 0)->0 =~= unescaped(
        bytes@,
        0,
    )->0);
    while i < bytes.len()
        invariant
            i <= bytes.len(),
            bytes@ == encode_utf8(s@),
            match unescaped(bytes@, i as int) {
                Some(rest) => unescaped(bytes@, 0) == Some(out@ + rest),
                None => unescaped(bytes@, 0) is None,
            },
        decreases bytes.len() - i,
    {
        let b = bytes[i];
        let ghost before = out@;
        if b == 0x25 {
            if bytes.len() - i < 3 {
                return None;
            }
            match (hex(bytes[i + 1]), hex(bytes[i + 2])) {
                (Some(hi), Some(lo)) => {
                    out.push(hi * 16 + lo);
                    proof {
                        if unescaped(bytes@, i + 3) is Some {
                            assert(before + unescaped(bytes@, i as int)->0 =~= out@ + unescaped(
                                bytes@,
                                i + 3,
                            )->0);
                        }
                    }
                    i += 3;
                },
                _ => return None,
            }
        } else {
            if b == 0x2b {
                out.push(0x20);
            } else {
                out.push(b);
            }
            proof {
                if unescaped(bytes@, i + 1) is Some {
                    assert(before + unescaped(bytes@, i as int)->0 =~= out@ + unescaped(
                        bytes@,
                        i + 1,
                    )->0);
                }
            }
            i += 1;
        }
    }
    assert(out@ + Seq::<u8>::empty() =~= out@);
    utf8_text(out)
}

proof fn plain_bytes_are_unchanged(bytes: Seq<u8>, from: int)
    requires
        0 <= from <= bytes.len(),
        forall|i: int| 0 <= i < bytes.len() ==> #[trigger] bytes[i] != 0x25 && bytes[i] != 0x2b,
    ensures
        unescaped(bytes, from) == Some(bytes.skip(from)),
    decreases bytes.len() - from,
{
    if from < bytes.len() {
        plain_bytes_are_unchanged(bytes, from + 1);
        assert(seq![bytes[from]] + bytes.skip(from + 1) =~= bytes.skip(from));
    } else {
        assert(bytes.skip(from) =~= Seq::empty());
    }
}

/// A text without percent and plus signs decodes to itself.
pub proof fn plain_text_is_unchanged(s: Seq<char>)
    requires
        forall|i: int|
            0 <= i < encode_utf8(s).len() ==> #[trigger] encode_utf8(s)[i] != 0x25 && encode_utf8(
                s,
            )[i] != 0x2b,
    ensures
        percent_decoded(s) == Some(s),
{
    let bytes = encode_utf8(s);
    plain_bytes_are_unchanged(bytes, 0);
    assert(bytes.skip(0) =~= bytes);
    encode_utf8_valid_utf8(s);
    encode_utf8_decode_utf8(s);
}

/// The key of a pair of a query: what stands before its first equals sign.
pub open spec fn pair_key(pair: Seq<char>) -> Seq<char> {
    match cut(pair, '=') {
        Some((key, _)) => key,
        None => pair,
    }
}

/// The value of a pair of a query: what stands after its first equals sign; empty without one.
pub open spec fn pair_value(pair: Seq<char>) -> Seq<char> {
    match cut(pair, '=') {
        Some((_, value)) => value,
        None => Seq::empty(),
    }
}

/// The seeds that the pairs of a query name, in order: the values of `v` that can be decoded and
/// are not empty.
pub open spec fn query_seeds(pairs: Seq<Seq<char>>) -> Seq<Seq<char>>
    decreases pairs.len(),
{
    if pairs.len() == 0 {
        Seq::empty()
    } else {
        let before = query_seeds(pairs.drop_last());
        if pair_key(pairs.last()) == "v"@ {
            match percent_decoded(pair_value(pairs.last())) {
                Some(seed) if seed.len() > 0 => before.push(seed),
                _ => before,
            }
        } else {
            before
        }
    }
}

/// The limit that the pairs of a query give: the last `limit` decides; one that is no number gives
/// none.
pub open spec fn query_limit(pairs: Seq<Seq<char>>) -> Option<nat>
    decreases pairs.len(),
{
    if pairs.len() == 0 {
        None
    } else if pair_key(pairs.last()) == "limit"@ {
        match percent_decoded(pair_value(pairs.last())) {
            Some(limit) => bounded_number(limit, u32::MAX as nat),
            None => None,
        }
    } else {
        query_limit(pairs.drop_last())
    }
}

/// The pairs of a query.
pub open spec fn query_pairs(raw: Option<&str>) -> Seq<Seq<char>> {
    match raw {
        Some(raw) => split(raw@, '&'),
        None => Seq::empty(),
    }
}

/// The view of an optional number.
pub open spec fn opt_nat(n: Option<u32>) -> Option<nat> {
    match n {
        Some(n) => Some(n as nat),
        None => None,
    }
}

/// A pair of a query as its key and its value.
pub(crate) fn split_pair(pair: &Vec<char>) -> (halves: (String, String))
    ensures
        halves.0@ == pair_key(pair@),
        halves.1@ == pair_value(pair@),
{
    match split_once(pair, '=') {
        Some((key, value)) => (text_of(&key), text_of(&value)),
        None => (text_of(pair), String::new()),
    }
}

/// Parse the backfill query string into the repeated `v` values (percent-decoded, in wire order)
/// and the optional `limit`. Unknown keys are ignored.
pub fn parse_backfill_query(raw: Option<&str>) -> (parsed: (Vec<String>, Option<u32>))
    ensures
        texts(parsed.0@) == query_seeds(query_pairs(raw)),
        opt_nat(parsed.1) == query_limit(query_pairs(raw)),
{
    let mut vs: Vec<String> = Vec::new();
    let mut limit: Option<u32> = None;
    assert(texts(vs@) =~= Seq::empty());
    let raw = match raw {
        Some(raw) => raw,
        None => return (vs, limit),
    };
    let pairs = split_on(&chars_of(raw), '&');
    let ghost all = char_views(pairs@);
    let mut i: usize = 0;
    assert(all.take(0) =~= Seq::empty());
    while i < pairs.len()
        invariant
            i <= pairs.len(),
            all == char_views(pairs@),
            texts(vs@) == query_seeds(all.take(i as int)),
            opt_nat(limit) == query_limit(all.take(i as int)),
        decreases pairs.len() - i,
    {
        assert(all.take(i + 1).drop_last() =~= all.take(i as int));
        assert(all.take(i + 1).last() == pairs@[i as int]@);
        let (key, val) = split_pair(&pairs[i]);
        proof {
            reveal_strlit("v");
            reveal_strlit("limit");
            assert("v"@.len() != "limit"@.len());
        }
        if same_text(key.as_str(), "v") {
            match percent_decode(val.as_str()) {
                Some(decoded) => {
                    if !decoded.as_str().is_empty() {
                        let ghost before = vs@;
                        vs.push(decoded);
                        assert(texts(vs@) =~= texts(before).push(decoded@));
                    }
                },
                None => {},
            }
        } else if same_text(key.as_str(), "limit") {
            limit = match percent_decode(val.as_str()) {
                Some(decoded) => match parse_number(decoded.as_str(), u32::MAX as u64) {
                    Some(n) => Some(n as u32),
                    None => None,
                },
                None => None,
            };
        }
        i += 1;
    }
    assert(all.take(i as int) =~= all);
    (vs, limit)
}

/// A backfill request that was understood.
#[derive(Debug, PartialEq, Eq)]
pub struct BackfillRequest {
    /// The server that asks.
    pub caller: String,
    /// The events to walk back from, as the query names them.
    pub seeds: Vec<String>,
    /// How many events to answer with.
    pub limit: usize,
}

/// How many events are answered: 10 where the request does not say, and at most 100.
pub open spec fn clamped(limit: Option<nat>) -> nat {
    match limit {
        None => DEFAULT_LIMIT as nat,
        Some(n) => if n < MAX_LIMIT {
            n
        } else {
            MAX_LIMIT as nat
        },
    }
}

/// The complaint about a backfill request, before who sent it is looked at.
pub open spec fn backfill_complaint(room_id: Seq<char>, pairs: Seq<Seq<char>>) -> Option<Seq<char>> {
    if !valid_room_id(room_id) {
        Some("invalid room_id"@)
    } else if query_seeds(pairs).len() == 0 {
        Some("missing v parameter"@)
    } else if query_limit(pairs) == Some(0nat) {
        Some("limit must be a positive integer"@)
    } else {
        None
    }
}

/// Understands a backfill request: its room and its query, then the server that sent it.
pub fn read_backfill_request(
    room_id: &str,
    query: Option<&str>,
    header: Option<&str>,
    our_name: &str,
) -> (request: Result<BackfillRequest, FedError>)
    ensures
        match backfill_complaint(room_id@, query_pairs(query)) {
            Some(complaint) => request matches Err(FedError::BadRequest(m)) && m@ == complaint,
            None => match auth_refusal(header, our_name@) {
                Some(refusal) => request matches Err(FedError::Unauthorized(m)) && m@ == refusal,
                None => {
                    &&& request is Ok
                    &&& attested(header) == Some(request->Ok_0.caller@)
                    &&& texts(request->Ok_0.seeds@) == query_seeds(query_pairs(query))
                    &&& request->Ok_0.limit == clamped(query_limit(query_pairs(query)))
                },
            },
        },
{
    if !is_room_id(room_id) {
        return Err(FedError::BadRequest("invalid room_id"));
    }
    let (seeds, limit) = parse_backfill_query(query);
    assert(texts(seeds@).len() == seeds@.len());
    if seeds.len() == 0 {
        return Err(FedError::BadRequest("missing v parameter"));
    }
    match limit {
        Some(0) => return Err(FedError::BadRequest("limit must be a positive integer")),
        _ => {},
    }
    let caller = match authenticated_origin(header, our_name) {
        Ok(caller) => caller,
        Err(e) => return Err(e),
    };
    let limit: u32 = match limit {
        Some(n) => if n < MAX_LIMIT {
            n
        } else {
            MAX_LIMIT
        },
        None => DEFAULT_LIMIT,
    };
    Ok(BackfillRequest { caller, seeds, limit: limit as usize })
}

/// Whether a server may walk a room's history: the room must exist, and then the server must have
/// a member in it.
pub fn scope_to_members(known: Result<bool, String>, in_room: Result<bool, String>) -> (scoped:
    Result<(), FedError>)
    ensures
        match known {
            Err(e) => scoped == Err::<(), FedError>(FedError::Storage(e)),
            Ok(false) => scoped == Err::<(), FedError>(FedError::RoomNotFound),
            Ok(true) => match in_room {
                Err(e) => scoped == Err::<(), FedError>(FedError::Storage(e)),
                Ok(false) => scoped matches Err(FedError::Forbidden(m)) && m@
                    == "origin server is not a member of this room"@,
                Ok(true) => scoped is Ok,
            },
        },
{
    match known {
        Err(e) => Err(FedError::Storage(e)),
        Ok(false) => Err(FedError::RoomNotFound),
        Ok(true) => match in_room {
            Err(e) => Err(FedError::Storage(e)),
            Ok(false) => Err(FedError::Forbidden("origin server is not a member of this room")),
            Ok(true) => Ok(()),
        },
    }
}

/// The seeds that are event identifiers; the others are skipped.
pub fn valid_seeds(seeds: &Vec<String>) -> (ids: Vec<String>)
    ensures
        texts(ids@) == texts(seeds@).filter(|s: Seq<char>| valid_event_id(s)),
{
    let ghost keep = |s: Seq<char>| valid_event_id(s);
    let mut ids: Vec<String> = Vec::new();
    let mut i: usize = 0;
    proof {
        reveal(Seq::filter);
        assert(texts(seeds@).take(0) =~= Seq::empty());
        assert(texts(ids@) =~= Seq::empty());
    }
    while i < seeds.len()
        invariant
            i <= seeds.len(),
            keep == (|s: Seq<char>| valid_event_id(s)),
            texts(ids@) == texts(seeds@).take(i as int).filter(keep),
        decreases seeds.len() - i,
    {
        proof {
            reveal(Seq::filter);
            assert(texts(seeds@).take(i + 1).drop_last() =~= texts(seeds@).take(i as int));
            assert(texts(seeds@).take(i + 1).last() == seeds@[i as int]@);
        }
        if is_event_id(seeds[i].as_str()) {
            let ghost before = ids@;
            ids.push(seeds[i].clone());
            assert(texts(ids@) =~= texts(before).push(seeds@[i as int]@));
        }
        i += 1;
    }
    assert(texts(seeds@).take(i as int) =~= texts(seeds@));
    ids
}

/// The identifiers of the events of a room among some events, in order: a seed of another room is
/// not walked from.
pub fn held_in_room(events: &Vec<Event>, room_id: &str) -> (ids: Vec<String>)
    ensures
        texts(ids@) == event_models(events@).filter(
            |e: EventModel| e.room_id == room_id@,
        ).map_values(|e: EventModel| e.event_id),
{
    let ghost keep = |e: EventModel| e.room_id == room_id@;
    let ghost name = |e: EventModel| e.event_id;
    let ghost all = event_models(events@);
    let mut ids: Vec<String> = Vec::new();
    let mut i: usize = 0;
    proof {
        reveal(Seq::filter);
        assert(all.take(0) =~= Seq::empty());
        assert(texts(ids@) =~= all.take(0).filter(keep).map_values(name));
    }
    while i < events.len()
        invariant
            i <= events.len(),
            all == event_models(events@),
            keep == (|e: EventModel| e.room_id == room_id@),
            name == (|e: EventModel| e.event_id),
            texts(ids@) == all.take(i as int).filter(keep).map_values(name),
        decreases events.len() - i,
    {
        proof {
            reveal(Seq::filter);
            assert(all.take(i + 1).drop_last() =~= all.take(i as int));
            assert(all.take(i + 1).last() == events@[i as int]@);
        }
        if same_text(events[i].room_id.as_str(), room_id) {
            let ghost before = ids@;
            ids.push(events[i].event_id.clone());
            assert(texts(ids@) =~= texts(before).push(all[i as int].event_id));
            assert(all.take(i + 1).filter(keep).map_values(name) =~= all.take(i as int).filter(
                keep,
            ).map_values(name).push(all[i as int].event_id));
        }
        i += 1;
    }
    assert(all.take(i as int) =~= all);
    ids
}

/// As many events are answered as are asked for, up to 100; 10 where the request does not say.
pub proof fn limit_is_honoured(limit: Option<nat>)
    ensures
        limit is None ==> clamped(limit) == 10,
        limit matches Some(asked) ==> (asked <= 100 ==> clamped(limit) == asked),
        limit matches Some(asked) ==> (asked > 100 ==> clamped(limit) == 100),
{
}

/// A request is understood exactly where its room has an identifier, its query names an event to start
/// from and no limit of zero, and its sender is attested; it is then what the query says.
pub proof fn understood_exactly(
    room_id: &str,
    query: Option<&str>,
    header: Option<&str>,
    our_name: &str,
    request: Result<BackfillRequest, FedError>,
)
    requires
        call_ensures(read_backfill_request, (room_id, query, header, our_name), request),
    ensures
        request is Ok <==> {
            &&& valid_room_id(room_id@)
            &&& query_seeds(query_pairs(query)).len() > 0
            &&& query_limit(query_pairs(query)) != Some(0nat)
            &&& auth_refusal(header, our_name@) is None
        },
        request matches Ok(asked) ==> attested(header) == Some(asked.caller@) && texts(asked.seeds@)
            == query_seeds(query_pairs(query)),
        request matches Ok(asked) ==> match query_limit(query_pairs(query)) {
            None => asked.limit == 10,
            Some(n) => asked.limit == if n <= 100 {
                n
            } else {
                100
            },
        },
{
}

proof fn pair_is_cut(key: Seq<char>, value: Seq<char>)
    requires
        forall|i: int| 0 <= i < key.len() ==> #[trigger] key[i] != '=',
    ensures
        pair_key(key.push('=') + value) == key,
        pair_value(key.push('=') + value) == value,
{
    let pair = key.push('=') + value;
    crate::text::position_is(pair, '=', 0, key.len() as int);
    assert(pair.take(key.len() as int) =~= key);
    assert(pair.skip(key.len() as int + 1) =~= value);
}

/// Every event that a query names is one to start from: each value of `v`, in order, as it stands for
/// itself; other keys name none.
pub proof fn every_seed_counts(pairs: Seq<Seq<char>>, key: Seq<char>, seed: Seq<char>)
    requires
        seed.len() > 0,
        percent_decoded(seed) == Some(seed),
        forall|i: int| 0 <= i < key.len() ==> #[trigger] key[i] != '=',
    ensures
        query_seeds(pairs.push("v"@.push('=') + seed)) == query_seeds(pairs).push(seed),
        key != "v"@ ==> query_seeds(pairs.push(key.push('=') + seed)) == query_seeds(pairs),
        query_seeds(Seq::empty()) == Seq::<Seq<char>>::empty(),
{
    reveal_strlit("v");
    pair_is_cut("v"@, seed);
    pair_is_cut(key, seed);
    assert(pairs.push("v"@.push('=') + seed).drop_last() =~= pairs);
    assert(pairs.push(key.push('=') + seed).drop_last() =~= pairs);
}

/// The limit that a query gives is the number that is written in it; the last one counts, and other
/// keys change nothing.
pub proof fn last_limit_counts(pairs: Seq<Seq<char>>, key: Seq<char>, value: Seq<char>, n: nat)
    requires
        n <= u32::MAX,
        percent_decoded(decimal(n)) == Some(decimal(n)),
        forall|i: int| 0 <= i < key.len() ==> #[trigger] key[i] != '=',
    ensures
        query_limit(pairs.push("limit"@.push('=') + decimal(n))) == Some(n),
        key != "limit"@ ==> query_limit(pairs.push(key.push('=') + value)) == query_limit(pairs),
        query_limit(Seq::empty()) is None,
{
    reveal_strlit("limit");
    number_of_decimal(n);
    pair_is_cut("limit"@, decimal(n));
    pair_is_cut(key, value);
    assert(pairs.push("limit"@.push('=') + decimal(n)).drop_last() =~= pairs);
    assert(pairs.push(key.push('=') + value).drop_last() =~= pairs);
}

/// A hexadecimal digit.
pub open spec fn hex_digit(n: u8) -> u8 {
    if n < 10 {
        (0x30 + n) as u8
    } else {
        (0x41 + n - 10) as u8
    }
}

/// Bytes, each escaped: a percent sign and two hexadecimal digits.
pub open spec fn escaped(bytes: Seq<u8>) -> Seq<u8>
    decreases bytes.len(),
{
    if bytes.len() == 0 {
        Seq::empty()
    } else {
        seq![0x25u8, hex_digit(bytes[0] / 16), hex_digit(bytes[0] % 16)] + escaped(
            bytes.drop_first(),
        )
    }
}

proof fn unescaped_is_local(bytes: Seq<u8>, from: int)
    requires
        0 <= from <= bytes.len(),
    ensures
        unescaped(bytes, from) == unescaped(bytes.skip(from), 0),
{
    unescaped_shifts(bytes, bytes.skip(from), from, 0);
}

proof fn unescaped_shifts(bytes: Seq<u8>, rest: Seq<u8>, by: int, from: int)
    requires
        0 <= by <= bytes.len(),
        rest == bytes.skip(by),
        0 <= from <= rest.len(),
    ensures
        unescaped(bytes, by + from) == unescaped(rest, from),
    decreases rest.len() - from,
{
    if from < rest.len() {
        assert(bytes[by + from] == rest[from]);
        if rest[from] == 0x25 {
            if from + 2 < rest.len() {
                assert(bytes[by + from + 1] == rest[from + 1]);
                assert(bytes[by + from + 2] == rest[from + 2]);
                unescaped_shifts(bytes, rest, by, from + 3);
            }
        } else {
            unescaped_shifts(bytes, rest, by, from + 1);
        }
    }
}

/// Whatever was escaped is read as it was, byte for byte.
pub proof fn escaped_is_read(bytes: Seq<u8>)
    ensures
        unescaped(escaped(bytes), 0) == Some(bytes),
    decreases bytes.len(),
{
    if bytes.len() > 0 {
        let rest = bytes.drop_first();
        let all = escaped(bytes);
        let b = bytes[0];
        escaped_is_read(rest);
        assert(all.skip(3) =~= escaped(rest));
        unescaped_is_local(all, 3);
        assert(hex_value(hex_digit(b / 16)) == Some((b / 16) as u8));
        assert(hex_value(hex_digit(b % 16)) == Some((b % 16) as u8));
        assert((b / 16) * 16 + b % 16 == b);
        assert(seq![b] + rest =~= bytes);
    }
}

/// History is walked for the servers of a room alone: the room must be known here, and the server must
/// have a member in it.
pub proof fn history_is_for_servers_of_the_room(known: bool, in_room: bool, scoped: Result<(), FedError>)
    requires
        call_ensures(scope_to_members, (Ok(known), Ok(in_room)), scoped),
    ensures
        scoped is Ok <==> known && in_room,
        !known ==> scoped == Err::<(), FedError>(FedError::RoomNotFound),
        known && !in_room ==> scoped is Err && scoped->Err_0 is Forbidden,
{
}

/// The walk starts from every event that is named by an identifier, and from those of the room that are
/// held, each of them and no other.
pub proof fn walked_from_all_that_is_held(
    seeds: Vec<String>,
    ids: Vec<String>,
    events: Vec<Event>,
    room_id: &str,
    held: Vec<String>,
    i: int,
    id: Seq<char>,
)
    requires
        call_ensures(valid_seeds, (&seeds,), ids),
        call_ensures(held_in_room, (&events, room_id), held),
    ensures
        0 <= i < seeds@.len() && valid_event_id(seeds@[i]@) ==> texts(ids@).contains(seeds@[i]@),
        texts(ids@).contains(id) ==> valid_event_id(id) && texts(seeds@).contains(id),
        0 <= i < events@.len() && events@[i].room_id@ == room_id@ ==> texts(held@).contains(
            events@[i].event_id@,
        ),
        texts(held@).contains(id) ==> exists|k: int|
            0 <= k < events@.len() && (#[trigger] events@[k]).event_id@ == id && events@[k].room_id@
                == room_id@,
{
    let keep = |s: Seq<char>| valid_event_id(s);
    let all = texts(seeds@);
    if 0 <= i < seeds@.len() && valid_event_id(seeds@[i]@) {
        assert(all[i] == seeds@[i]@);
        all.lemma_filter_contains(keep, i);
    }
    if texts(ids@).contains(id) {
        let k = choose|k: int| 0 <= k < texts(ids@).len() && texts(ids@)[k] == id;
        all.lemma_filter_pred(keep, k);
        all.lemma_filter_contains_rev(keep, id);
    }
    let of_room = |e: EventModel| e.room_id == room_id@;
    let name = |e: EventModel| e.event_id;
    let found = event_models(events@);
    let kept = found.filter(of_room);
    if 0 <= i < events@.len() && events@[i].room_id@ == room_id@ {
        assert(found[i] == events@[i]@);
        found.lemma_filter_contains(of_room, i);
        let k = choose|k: int| 0 <= k < kept.len() && kept[k] == found[i];
        assert(texts(held@)[k] == kept.map_values(name)[k]);
    }
    if texts(held@).contains(id) {
        let k = choose|k: int| 0 <= k < texts(held@).len() && texts(held@)[k] == id;
        assert(texts(held@)[k] == kept.map_values(name)[k]);
        found.lemma_filter_pred(of_room, k);
        assert(kept.contains(kept[k]));
        found.lemma_filter_contains_rev(of_room, kept[k]);
        let m = choose|m: int| 0 <= m < found.len() && found[m] == kept[k];
        assert(events@[m].event_id@ == id);
    }
}

/// A hexadecimal digit counts the same in either case; a plus sign stands for a space; a percent sign
/// without two digits after it stands for nothing.
pub proof fn escapes_are_read(n: u8, first: u8, second: u8)
    ensures
        n < 10 ==> hex_value((0x30 + n) as u8) == Some(n),
        10 <= n < 16 ==> hex_value((0x61 + n - 10) as u8) == Some(n),
        10 <= n < 16 ==> hex_value((0x41 + n - 10) as u8) == Some(n),
        unescaped(seq![0x2bu8], 0) == Some(seq![0x20u8]),
        first != 0x25 && first != 0x2b ==> unescaped(seq![first], 0) == Some(seq![first]),
        unescaped(seq![0x25u8], 0) is None,
        unescaped(seq![0x25u8, first], 0) is None,
        hex_value(first) is None || hex_value(second) is None ==> unescaped(
            seq![0x25u8, first, second],
            0,
        ) is None,
{
    reveal_with_fuel(unescaped, 2);
    assert(seq![0x20u8] + Seq::<u8>::empty() =~= seq![0x20u8]);
    assert(seq![first] + Seq::<u8>::empty() =~= seq![first]);
}

} // verus!
