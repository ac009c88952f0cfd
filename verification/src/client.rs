//! Outbound federation requests: identifiers of transactions, addresses, and what an answer of a
//! peer comes to. The requests themselves are made outside.

use vstd::prelude::*;
use vstd::string::StringExecFns;

use crate::event::ForwardExtremities;
use crate::json::{models, Json, JsonModel};
use crate::sender::Outcome;
use crate::text::{chars_of, decimal, decimal_text, position, position_is, slice, text_of, texts};

verus! {

/// How many characters of a peer's answer are logged.
pub const BODY_LOG_LIMIT: usize = 1024;

/// How long, in milliseconds, a connection may take to be made.
pub const CONNECT_TIMEOUT: u64 = 10_000;

/// How long, in milliseconds, a request may take in all.
pub const REQUEST_TIMEOUT: u64 = 60_000;

/// The identifier of the `n`th transaction after a start: the start, a hyphen, and `n`.
pub open spec fn txn_id(start: u64, n: u64) -> Seq<char> {
    decimal(start as nat).push('-') + decimal(n as nat)
}

/// Makes transaction identifiers. The time of the start keeps them apart across restarts, a
/// counter within a run.
#[derive(Debug, PartialEq, Eq)]
pub struct TxnIdGen {
    pub start: u64,
    pub next: u64,
}

impl TxnIdGen {
    /// The identifiers of a run that started at a time.
    pub fn new(start: u64) -> (idgen: TxnIdGen)
        ensures
            idgen.start == start,
            idgen.next == 0,
    {
        TxnIdGen { start, next: 0 }
    }

    /// The next identifier.
    pub fn next_id(&mut self) -> (id: String)
        requires
            old(self).next < u64::MAX,
        ensures
            id@ == txn_id(old(self).start, old(self).next),
            final(self).start == old(self).start,
            final(self).next == old(self).next + 1,
    {
        let mut id = decimal_text(self.start);
        id.push('-');
        id.append(decimal_text(self.next).as_str());
        self.next = self.next + 1;
        id
    }
}

proof fn decimal_has_no_hyphen(n: nat)
    ensures
        forall|i: int| 0 <= i < decimal(n).len() ==> decimal(n)[i] != '-',
    decreases n,
{
    if n >= 10 {
        let front = decimal(n / 10);
        decimal_has_no_hyphen(n / 10);
        assert forall|i: int| 0 <= i < decimal(n).len() implies decimal(n)[i] != '-' by {
            if i < front.len() {
                assert(decimal(n)[i] == front[i]);
            }
        }
    }
}

proof fn decimal_is_injective(a: nat, b: nat)
    requires
        decimal(a) == decimal(b),
    ensures
        a == b,
{
    crate::text::number_of_decimal(a);
    crate::text::number_of_decimal(b);
}

/// No two transactions share an identifier: neither two of a run, nor two of runs that started at
/// different times.
pub proof fn txn_ids_are_unique(start_a: u64, a: u64, start_b: u64, b: u64)
    requires
        txn_id(start_a, a) == txn_id(start_b, b),
    ensures
        start_a == start_b,
        a == b,
{
    let id = txn_id(start_a, a);
    decimal_has_no_hyphen(start_a as nat);
    decimal_has_no_hyphen(start_b as nat);
    position_is(id, '-', 0, decimal(start_a as nat).len() as int);
    position_is(id, '-', 0, decimal(start_b as nat).len() as int);
    let at = position(id, '-', 0);
    assert(id.take(at) =~= decimal(start_a as nat));
    assert(id.take(at) =~= decimal(start_b as nat));
    assert(id.skip(at + 1) =~= decimal(a as nat));
    assert(id.skip(at + 1) =~= decimal(b as nat));
    decimal_is_injective(start_a as nat, start_b as nat);
    decimal_is_injective(a as nat, b as nat);
}

/// Why a request to a peer failed.
#[derive(Debug, PartialEq, Eq)]
pub enum FederationClientError {
    /// No answer, or one that could not be read.
    Transport(String),
    /// An answer with a status other than 2xx.
    Status(u16),
    /// The address could not be made.
    InvalidUrl,
}

impl FederationClientError {
    /// The error in words.
    pub open spec fn text(self) -> Seq<char> {
        match self {
            FederationClientError::Transport(e) => "federation transport error: "@ + e@,
            FederationClientError::Status(code) => "peer returned HTTP "@ + decimal(code as nat),
            FederationClientError::InvalidUrl => "could not build federation URL"@,
        }
    }

    /// The error in words.
    pub fn to_text(&self) -> (text: String)
        ensures
            text@ == self.text(),
    {
        match self {
            FederationClientError::Transport(e) => "federation transport error: ".to_owned().concat(
                e.as_str(),
            ),
            FederationClientError::Status(code) => "peer returned HTTP ".to_owned().concat(
                decimal_text(*code as u64).as_str(),
            ),
            FederationClientError::InvalidUrl => "could not build federation URL".to_owned(),
        }
    }
}

/// Why a delivery failed, as the sender tells failures apart.
#[derive(Debug, PartialEq, Eq)]
pub enum TransportError {
    /// The peer's status.
    Status(u16),
    /// Anything that may pass.
    Transient(String),
}

/// A failed request as a failed delivery: a status passes through, anything else is transient.
pub fn transport_error(e: FederationClientError) -> (error: TransportError)
    ensures
        match e {
            FederationClientError::Status(code) => error == TransportError::Status(code),
            _ => error matches TransportError::Transient(text) && text@ == e.text(),
        },
{
    match e {
        FederationClientError::Status(code) => TransportError::Status(code),
        FederationClientError::Transport(m) => TransportError::Transient(
            FederationClientError::Transport(m).to_text(),
        ),
        FederationClientError::InvalidUrl => TransportError::Transient(
            FederationClientError::InvalidUrl.to_text(),
        ),
    }
}

/// What a sending comes to for the task of a destination.
pub fn send_outcome(sent: Result<Vec<(String, ForwardExtremities)>, TransportError>) -> (outcome:
    Outcome)
    ensures
        match sent {
            Ok(peer) => outcome == Outcome::Delivered(peer),
            Err(TransportError::Status(code)) => outcome == Outcome::Status(code),
            Err(TransportError::Transient(_)) => outcome is Unreachable,
        },
{
    match sent {
        Ok(peer) => Outcome::Delivered(peer),
        Err(TransportError::Status(code)) => Outcome::Status(code),
        Err(TransportError::Transient(_)) => Outcome::Unreachable,
    }
}

/// Whether a status says that a request was met.
pub open spec fn success(status: u16) -> bool {
    200 <= status < 300
}

/// What an answered request comes to: the heads that the peer advertised, none where the answer
/// does not give them in a form that can be read; or the status, where it is not 2xx.
pub fn delivery(status: u16, advertised: Option<Vec<(String, ForwardExtremities)>>) -> (delivered:
    Result<Vec<(String, ForwardExtremities)>, FederationClientError>)
    ensures
        if success(status) {
            delivered is Ok && match advertised {
                Some(heads) => delivered->Ok_0 == heads,
                None => delivered->Ok_0@.len() == 0,
            }
        } else {
            delivered == Err::<Vec<(String, ForwardExtremities)>, FederationClientError>(
                FederationClientError::Status(status),
            )
        },
{
    if 200 <= status && status < 300 {
        match advertised {
            Some(heads) => Ok(heads),
            None => Ok(Vec::new()),
        }
    } else {
        Err(FederationClientError::Status(status))
    }
}

/// The part of a peer's answer that is logged: its first characters.
pub fn body_excerpt(body: &str) -> (excerpt: String)
    ensures
        excerpt@ == if body@.len() <= BODY_LOG_LIMIT {
            body@
        } else {
            body@.take(BODY_LOG_LIMIT as int)
        },
{
    let chars = chars_of(body);
    if chars.len() <= BODY_LOG_LIMIT {
        body.to_owned()
    } else {
        let part = slice(&chars, 0, BODY_LOG_LIMIT);
        assert(part@ =~= body@.take(BODY_LOG_LIMIT as int));
        text_of(&part)
    }
}

/// The address that a transaction is put to.
pub fn send_url(dest: &str, txn_id: &str) -> (url: String)
    ensures
        url@ == "http://"@ + dest@ + "/_matrix/federation/v1/send/"@ + txn_id@,
{
    let mut url = "http://".to_owned();
    url.append(dest);
    url.append("/_matrix/federation/v1/send/");
    url.append(txn_id);
    url
}

/// The longest part, in characters, that an address is made of.
pub const URL_PART_MAX: usize = 0x10_0000;

/// The most pairs that the query of an address is made of.
pub const URL_PAIRS_MAX: usize = 16;

/// What `Url` makes of an address with segments behind its path; `None` where it refuses it.
pub uninterp spec fn joined_url(base: Seq<char>, segments: Seq<Seq<char>>) -> Option<Seq<char>>;

/// What `Url` makes of an address with segments behind its path and pairs in its query; `None`
/// where it refuses it.
pub uninterp spec fn joined_url_with_pairs(
    base: Seq<char>,
    segments: Seq<Seq<char>>,
    pairs: Seq<(Seq<char>, Seq<char>)>,
) -> Option<Seq<char>>;

/// Whether the parts of an address are short enough for a `Url`, which counts its bytes in 32 bits.
pub open spec fn parts_fit(base: Seq<char>, segments: Seq<Seq<char>>) -> bool {
    &&& base.len() <= URL_PART_MAX
    &&& segments.len() <= 2
    &&& forall|i: int| 0 <= i < segments.len() ==> (#[trigger] segments[i]).len() <= URL_PART_MAX
}

/// Whether the pairs of a query are few and short enough for a `Url`.
pub open spec fn pairs_fit(pairs: Seq<(Seq<char>, Seq<char>)>) -> bool {
    &&& pairs.len() <= URL_PAIRS_MAX
    &&& forall|i: int|
        0 <= i < pairs.len() ==> (#[trigger] pairs[i]).0.len() <= URL_PART_MAX && pairs[i].1.len()
            <= URL_PART_MAX
}

/// The pairs of a query.
pub open spec fn pair_texts(pairs: Seq<(String, String)>) -> Seq<(Seq<char>, Seq<char>)> {
    pairs.map_values(|p: (String, String)| (p.0@, p.1@))
}

/// `reqwest::Url::parse`, then `path_segments_mut` and `extend`: the address is a function of the
/// text and the segments, each of which is escaped. How they are escaped is not stated.
#[verifier::external_body]
fn join_url(base: &str, segments: &Vec<String>) -> (url: Option<String>)
    requires
        parts_fit(base@, texts(segments@)),
    ensures
        match url {
            Some(url) => joined_url(base@, texts(segments@)) == Some(url@),
            None => joined_url(base@, texts(segments@)) is None,
        },
{
    let mut url = reqwest::Url::parse(base).ok()?;
    url.path_segments_mut().ok()?.extend(segments);
    Some(url.to_string())
}

/// `reqwest::Url::parse`, `path_segments_mut` and `extend`, then `query_pairs_mut` and
/// `extend_pairs`: the address is a function of the text, the segments and the pairs. How they are
/// escaped is not stated.
#[verifier::external_body]
fn join_url_with_pairs(base: &str, segments: &Vec<String>, pairs: &Vec<(String, String)>) -> (url:
    Option<String>)
    requires
        parts_fit(base@, texts(segments@)),
        pairs_fit(pair_texts(pairs@)),
    ensures
        match url {
            Some(url) => joined_url_with_pairs(base@, texts(segments@), pair_texts(pairs@)) == Some(
                url@,
            ),
            None => joined_url_with_pairs(base@, texts(segments@), pair_texts(pairs@)) is None,
        },
{
    let mut url = reqwest::Url::parse(base).ok()?;
    url.path_segments_mut().ok()?.extend(segments);
    url.query_pairs_mut().extend_pairs(pairs);
    Some(url.to_string())
}

/// A pair for each seed.
pub open spec fn seed_pairs(seeds: Seq<Seq<char>>) -> Seq<(Seq<char>, Seq<char>)> {
    seeds.map_values(|s: Seq<char>| ("v"@, s))
}

fn backfill_pairs(seeds: &Vec<String>, limit: u32) -> (pairs: Vec<(String, String)>)
    ensures
        pair_texts(pairs@) == seed_pairs(texts(seeds@)).push(("limit"@, decimal(limit as nat))),
{
    let mut pairs: Vec<(String, String)> = Vec::new();
    let mut i: usize = 0;
    while i < seeds.len()
        invariant
            i <= seeds.len(),
            pairs.len() == i,
            forall|k: int|
                0 <= k < i ==> ((#[trigger] pairs@[k]).0@, pairs@[k].1@) == ("v"@, seeds@[k]@),
        decreases seeds.len() - i,
    {
        pairs.push(("v".to_owned(), seeds[i].clone()));
        i += 1;
    }
    assert(pair_texts(pairs@) =~= seed_pairs(texts(seeds@)));
    let ghost before = pairs@;
    pairs.push(("limit".to_owned(), decimal_text(limit as u64)));
    assert(pair_texts(pairs@) =~= pair_texts(before).push(("limit"@, decimal(limit as nat))));
    pairs
}

/// What a peer is asked about a room.
#[derive(Debug, PartialEq, Eq)]
pub enum Endpoint<'a> {
    /// `POST`: events between what is held and some heads.
    GetMissingEvents { room_id: &'a str },
    /// `GET`: events before some seeds, no more than so many.
    Backfill { room_id: &'a str, seeds: &'a Vec<String>, limit: u32 },
    /// `GET`: a template for a join.
    MakeJoin { room_id: &'a str, user_id: &'a str, ver: &'a str },
    /// `PUT`: a completed join.
    SendJoin { room_id: &'a str, event_id: &'a str },
    /// `PUT`: an invitation.
    Invite { room_id: &'a str, event_id: &'a str },
    /// `GET`: a template for a departure.
    MakeLeave { room_id: &'a str, user_id: &'a str, ver: &'a str },
    /// `PUT`: a completed departure.
    SendLeave { room_id: &'a str, event_id: &'a str },
}

impl<'a> Endpoint<'a> {
    /// The path up to what names the room.
    pub open spec fn path(self) -> Seq<char> {
        match self {
            Endpoint::GetMissingEvents { .. } => "/_matrix/federation/v1/get_missing_events"@,
            Endpoint::Backfill { .. } => "/_matrix/federation/v1/backfill"@,
            Endpoint::MakeJoin { .. } => "/_matrix/federation/v1/make_join"@,
            Endpoint::SendJoin { .. } => "/_matrix/federation/v2/send_join"@,
            Endpoint::Invite { .. } => "/_matrix/federation/v2/invite"@,
            Endpoint::MakeLeave { .. } => "/_matrix/federation/v1/make_leave"@,
            Endpoint::SendLeave { .. } => "/_matrix/federation/v2/send_leave"@,
        }
    }

    /// What names the room, and the user or the event.
    pub open spec fn segments(self) -> Seq<Seq<char>> {
        match self {
            Endpoint::GetMissingEvents { room_id } => seq![room_id@],
            Endpoint::Backfill { room_id, .. } => seq![room_id@],
            Endpoint::MakeJoin { room_id, user_id, .. } => seq![room_id@, user_id@],
            Endpoint::SendJoin { room_id, event_id } => seq![room_id@, event_id@],
            Endpoint::Invite { room_id, event_id } => seq![room_id@, event_id@],
            Endpoint::MakeLeave { room_id, user_id, .. } => seq![room_id@, user_id@],
            Endpoint::SendLeave { room_id, event_id } => seq![room_id@, event_id@],
        }
    }

    /// The pairs of the query: the room version that is offered, or the seeds, each by itself, and
    /// then the limit.
    pub open spec fn pairs(self) -> Seq<(Seq<char>, Seq<char>)> {
        match self {
            Endpoint::MakeJoin { ver, .. } => seq![("ver"@, ver@)],
            Endpoint::MakeLeave { ver, .. } => seq![("ver"@, ver@)],
            Endpoint::Backfill { seeds, limit, .. } => seed_pairs(texts(seeds@)).push(
                ("limit"@, decimal(limit as nat)),
            ),
            _ => Seq::empty(),
        }
    }

    /// The address at a server, if it can be made.
    pub open spec fn address(self, dest: Seq<char>) -> Option<Seq<char>> {
        let base = "http://"@ + dest + self.path();
        if self.pairs().len() > 0 {
            joined_url_with_pairs(base, self.segments(), self.pairs())
        } else {
            joined_url(base, self.segments())
        }
    }

    /// Whether everything that the address is made of is short enough.
    pub open spec fn fits(self, dest: Seq<char>) -> bool {
        &&& parts_fit("http://"@ + dest + self.path(), self.segments())
        &&& pairs_fit(self.pairs())
    }

    /// The address at a server. A room identifier may hold characters that mean something in an
    /// address; they are escaped.
    pub fn url(&self, dest: &str) -> (url: Result<String, FederationClientError>)
        requires
            self.fits(dest@),
        ensures
            match url {
                Ok(url) => self.address(dest@) == Some(url@),
                Err(e) => self.address(dest@) is None && e is InvalidUrl,
            },
    {
        let mut pairs: Vec<(String, String)> = Vec::new();
        match self {
            Endpoint::MakeJoin { ver, .. } => pairs.push(("ver".to_owned(), (*ver).to_owned())),
            Endpoint::MakeLeave { ver, .. } => pairs.push(("ver".to_owned(), (*ver).to_owned())),
            Endpoint::Backfill { seeds, limit, .. } => {
                pairs = backfill_pairs(seeds, *limit);
            },
            _ => {},
        }
        assert(pair_texts(pairs@) =~= self.pairs());
        let (path, first, second) = match self {
            Endpoint::GetMissingEvents { room_id } => (
                "/_matrix/federation/v1/get_missing_events",
                *room_id,
                None,
            ),
            Endpoint::Backfill { room_id, .. } => (
                "/_matrix/federation/v1/backfill",
                *room_id,
                None,
            ),
            Endpoint::MakeJoin { room_id, user_id, .. } => (
                "/_matrix/federation/v1/make_join",
                *room_id,
                Some(*user_id),
            ),
            Endpoint::SendJoin { room_id, event_id } => (
                "/_matrix/federation/v2/send_join",
                *room_id,
                Some(*event_id),
            ),
            Endpoint::Invite { room_id, event_id } => (
                "/_matrix/federation/v2/invite",
                *room_id,
                Some(*event_id),
            ),
            Endpoint::MakeLeave { room_id, user_id, .. } => (
                "/_matrix/federation/v1/make_leave",
                *room_id,
                Some(*user_id),
            ),
            Endpoint::SendLeave { room_id, event_id } => (
                "/_matrix/federation/v2/send_leave",
                *room_id,
                Some(*event_id),
            ),
        };
        let base = "http://".to_owned().concat(dest).concat(path);
        let mut segments: Vec<String> = Vec::new();
        segments.push(first.to_owned());
        if let Some(second) = second {
            segments.push(second.to_owned());
        }
        assert(texts(segments@) =~= self.segments());
        let url = if pairs.len() > 0 {
            join_url_with_pairs(base.as_str(), &segments, &pairs)
        } else {
            join_url(base.as_str(), &segments)
        };
        match url {
            Some(url) => Ok(url),
            None => Err(FederationClientError::InvalidUrl),
        }
    }
}

/// The body of an invitation: the event, the version of its room, and what the invited user may
/// see of the room's state.
pub open spec fn invite_request_json(
    event: JsonModel,
    room_version: Seq<char>,
    shown: Seq<JsonModel>,
) -> JsonModel {
    JsonModel::Object(
        seq![
            ("event"@, event),
            ("room_version"@, JsonModel::Str(room_version)),
            ("invite_room_state"@, JsonModel::Array(shown)),
        ],
    )
}

/// The body of an invitation.
pub fn invite_request_to_json(event: Json, room_version: &str, shown: Vec<Json>) -> (json: Json)
    ensures
        json.model() == invite_request_json(event.model(), room_version@, models(shown@)),
{
    let ghost want = invite_request_json(
        event.model(),
        room_version@,
        models(shown@),
    )->Object_0;
    let json = Json::single("event", event).and("room_version", Json::string(room_version)).and(
        "invite_room_state",
        Json::array(shown),
    );
    assert(json.model()->Object_0 =~= want);
    json
}

/// What becomes of an answered request: an answer from 200 to 299 is a delivery, with the heads that it
/// gives; with any other status the task of the destination is told that status, and without an answer
/// that there is none.
pub proof fn answer_reaches_the_task(
    status: u16,
    advertised: Option<Vec<(String, ForwardExtremities)>>,
    delivered: Result<Vec<(String, ForwardExtremities)>, FederationClientError>,
    error: TransportError,
    outcome: Outcome,
)
    requires
        call_ensures(delivery, (status, advertised), delivered),
        delivered is Err ==> call_ensures(transport_error, (delivered->Err_0,), error),
        call_ensures(
            send_outcome,
            (match delivered {
                Ok(peer) => Ok(peer),
                Err(_) => Err(error),
            },),
            outcome,
        ),
    ensures
        200 <= status < 300 ==> (outcome matches Outcome::Delivered(peer) && match advertised {
            Some(heads) => peer == heads,
            None => peer@.len() == 0,
        }),
        status < 200 || status >= 300 ==> outcome == Outcome::Status(status),
{
}

/// What fails on the way may pass: no answer, and an address that cannot be made, are transient.
pub proof fn no_answer_is_transient(e: FederationClientError, error: TransportError, outcome: Outcome)
    requires
        call_ensures(transport_error, (e,), error),
        call_ensures(send_outcome, (Err(error),), outcome),
    ensures
        e is Transport || e is InvalidUrl ==> outcome is Unreachable,
        e matches FederationClientError::Status(code) ==> outcome == Outcome::Status(code),
{
}

/// The address of a request for history names every event that it starts from, in order, and then how
/// many are wanted.
pub proof fn every_seed_is_asked_for(room_id: &str, seeds: Vec<String>, limit: u32, i: int)
    requires
        0 <= i < seeds@.len(),
    ensures
        ({
            let pairs = (Endpoint::Backfill { room_id, seeds: &seeds, limit }).pairs();
            &&& pairs.len() == seeds@.len() + 1
            &&& pairs[i] == ("v"@, seeds@[i]@)
            &&& pairs[seeds@.len() as int] == ("limit"@, decimal(limit as nat))
        }),
{
}

/// A request about a room goes to the path of its kind, under the room and then the user or the event
/// that it is about; one for a template offers a version.
pub proof fn address_names_what_it_is_about(room_id: &str, about: &str, ver: &str)
    ensures
        (Endpoint::MakeJoin { room_id, user_id: about, ver }).segments() == seq![room_id@, about@],
        (Endpoint::MakeJoin { room_id, user_id: about, ver }).pairs() == seq![("ver"@, ver@)],
        (Endpoint::MakeLeave { room_id, user_id: about, ver }).segments() == seq![room_id@, about@],
        (Endpoint::MakeLeave { room_id, user_id: about, ver }).pairs() == seq![("ver"@, ver@)],
        (Endpoint::SendJoin { room_id, event_id: about }).segments() == seq![room_id@, about@],
        (Endpoint::SendLeave { room_id, event_id: about }).segments() == seq![room_id@, about@],
        (Endpoint::Invite { room_id, event_id: about }).segments() == seq![room_id@, about@],
        (Endpoint::GetMissingEvents { room_id }).segments() == seq![room_id@],
        (Endpoint::MakeJoin { room_id, user_id: about, ver }).path()
            == "/_matrix/federation/v1/make_join"@,
        (Endpoint::MakeLeave { room_id, user_id: about, ver }).path()
            == "/_matrix/federation/v1/make_leave"@,
        (Endpoint::SendJoin { room_id, event_id: about }).path()
            == "/_matrix/federation/v2/send_join"@,
        (Endpoint::SendLeave { room_id, event_id: about }).path()
            == "/_matrix/federation/v2/send_leave"@,
        (Endpoint::Invite { room_id, event_id: about }).path() == "/_matrix/federation/v2/invite"@,
        (Endpoint::GetMissingEvents { room_id }).path()
            == "/_matrix/federation/v1/get_missing_events"@,
{
}

/// No more of a peer's answer is logged than 1024 characters, from its beginning; a shorter one is logged
/// whole.
pub proof fn excerpt_is_the_beginning(body: &str, excerpt: String, i: int)
    requires
        call_ensures(body_excerpt, (body,), excerpt),
    ensures
        excerpt@.len() <= 1024,
        body@.len() <= 1024 ==> excerpt@ == body@,
        body@.len() > 1024 ==> excerpt@.len() == 1024,
        0 <= i < excerpt@.len() ==> excerpt@[i] == body@[i],
{
}

/// A failed request is a failed delivery: with the peer's status, or else in the words of the failure.
pub proof fn failure_is_passed_on(failed: FederationClientError, error: TransportError)
    requires
        call_ensures(transport_error, (failed,), error),
    ensures
        failed matches FederationClientError::Status(code) ==> error == TransportError::Status(code),
        error is Status ==> failed is Status,
        failed matches FederationClientError::Transport(e) ==> (
        error matches TransportError::Transient(text) && text@ == "federation transport error: "@
            + e@),
        failed is InvalidUrl ==> (error matches TransportError::Transient(text) && text@
            == "could not build federation URL"@),
{
}

/// The identifiers of a run begin anew and tell of its start.
pub proof fn run_begins_anew(start: u64, idgen: TxnIdGen)
    requires
        call_ensures(TxnIdGen::new, (start,), idgen),
    ensures
        idgen.start == start,
        idgen.next == 0,
{
}

/// Each identifier of a run is of its start and its turn, and the turn goes on.
pub proof fn each_turn_is_new(idgen: &mut TxnIdGen, id: String)
    requires
        call_ensures(TxnIdGen::next_id, (idgen,), id),
    ensures
        id@ == decimal(old(idgen).start as nat).push('-') + decimal(old(idgen).next as nat),
        final(idgen).start == old(idgen).start,
        final(idgen).next == old(idgen).next + 1,
{
}

} // verus!
