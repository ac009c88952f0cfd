//! `PUT /_matrix/federation/v1/send/{txnId}`: an inbound federation transaction.
//!
//! A transaction is an envelope of events. The handler does not integrate them: it stages each
//! one durably and answers at once; a worker integrates what is staged. A transaction is recorded
//! as processed only when everything in it that can be named was staged, so that a fault makes
//! the peer send it again. Parsing, storing and reading are done outside; what came of each is
//! handed to [`Inbound::step`], which decides what is done next.

use vstd::prelude::*;

use crate::auth::{attested, auth_refusal, authenticated_origin};
use crate::event::{
    advertisement, copy_opt, holds_text, opt_is, opt_text, Event, EventModel, ForwardExtremities,
    Heads,
};
use crate::ids::{server_part, user_server, valid_server_name, valid_user_id};
use crate::json::{member_position_is, Json, JsonModel};
use crate::response::FedError;
use crate::sender::{heads_of, pair_heads, with_heads, MAX_PDUS_PER_TXN};
use crate::text::{same_text, texts};
use crate::textset::{rising, TextSet};

verus! {

/// What is wrong with the body of a request.
#[derive(Debug, PartialEq, Eq)]
pub enum BodyProblem {
    NotJson,
    WrongShape,
}

/// The body of a transaction.
#[derive(Debug, PartialEq, Eq)]
pub struct TransactionBody {
    /// The sending server, as the envelope claims it. When present it must be the origin.
    pub origin: Option<String>,
    /// The events, as they travel.
    pub pdus: Vec<String>,
    /// The sender's heads, by room.
    pub forward_extremities: Vec<(String, ForwardExtremities)>,
}

/// The error that answers a transaction before anything is stored, if there is one. The order of
/// the checks is the order of the cases.
pub open spec fn refusal(
    body: Result<TransactionBody, BodyProblem>,
    header: Option<&str>,
    our_name: Seq<char>,
) -> Option<Seq<char>> {
    match body {
        Err(BodyProblem::NotJson) => Some("body is not valid JSON"@),
        Err(BodyProblem::WrongShape) => Some("body shape does not match the spec"@),
        Ok(body) => if body.pdus@.len() > MAX_PDUS_PER_TXN {
            Some("transaction exceeds 50 PDUs"@)
        } else {
            match auth_refusal(header, our_name) {
                Some(refusal) => Some(refusal),
                None => if body.origin is Some && opt_text(body.origin) != attested(header) {
                    Some("X-Matrix origin does not match the transaction origin"@)
                } else {
                    None
                },
            }
        },
    }
}

/// Whether the envelope itself is at fault, rather than who sent it.
pub open spec fn malformed(body: Result<TransactionBody, BodyProblem>) -> bool {
    match body {
        Err(_) => true,
        Ok(body) => body.pdus@.len() > MAX_PDUS_PER_TXN,
    }
}

/// Opens a transaction: its body, with the origin that its header attests.
pub fn open_transaction(
    body: Result<TransactionBody, BodyProblem>,
    header: Option<&str>,
    our_name: &str,
) -> (opened: Result<(String, TransactionBody), FedError>)
    ensures
        match refusal(body, header, our_name@) {
            Some(message) => {
                &&& opened is Err
                &&& opened->Err_0.message() == message
                &&& opened->Err_0 is BadRequest == malformed(body)
                &&& opened->Err_0 is Unauthorized == !malformed(body)
            },
            None => {
                &&& opened is Ok
                &&& attested(header) == Some(opened->Ok_0.0@)
                &&& valid_server_name(opened->Ok_0.0@)
                &&& body == Ok::<TransactionBody, BodyProblem>(opened->Ok_0.1)
                &&& opened->Ok_0.1.pdus@.len() <= MAX_PDUS_PER_TXN
            },
        },
{
    let body = match body {
        Ok(body) => body,
        Err(BodyProblem::NotJson) => return Err(FedError::BadRequest("body is not valid JSON")),
        Err(BodyProblem::WrongShape) => return Err(
            FedError::BadRequest("body shape does not match the spec"),
        ),
    };
    if body.pdus.len() > MAX_PDUS_PER_TXN {
        return Err(FedError::BadRequest("transaction exceeds 50 PDUs"));
    }
    let origin = match authenticated_origin(header, our_name) {
        Ok(origin) => origin,
        Err(e) => return Err(e),
    };
    match &body.origin {
        Some(claimed) => {
            if !same_text(claimed.as_str(), origin.as_str()) {
                return Err(
                    FedError::Unauthorized("X-Matrix origin does not match the transaction origin"),
                );
            }
        },
        None => {},
    }
    Ok((origin, body))
}

/// What a member event says at its surface: read without checking anything else of it.
#[derive(Debug, PartialEq, Eq)]
pub struct MemberShape {
    pub event_type: String,
    pub state_key: Option<String>,
    pub membership: Option<String>,
}

/// An optional text: absent or null is none, any other value must be a text.
pub open spec fn optional_text_in(value: Option<JsonModel>) -> Option<Option<Seq<char>>> {
    match value {
        None | Some(JsonModel::Null) => Some(None),
        Some(JsonModel::Str(text)) => Some(Some(text)),
        Some(_) => None,
    }
}

/// What an event says at its surface, if it has the shape of a member event: its type, its state
/// key and its membership. The event, and its content, may each be an array of all its fields.
pub open spec fn shape_in(event: JsonModel) -> Option<
    (Seq<char>, Option<Seq<char>>, Option<Seq<char>>),
> {
    match (
        event.field("type"@, 0),
        optional_text_in(event.field("state_key"@, 1)),
        event.field("content"@, 2),
    ) {
        (Some(JsonModel::Str(ty)), Some(state_key), Some(content)) if event.is_record(3, 3)
            && content.is_record(1, 1) => match optional_text_in(content.field("membership"@, 0)) {
            Some(membership) => Some((ty, state_key, membership)),
            None => None,
        },
        _ => None,
    }
}

fn read_optional_text(value: Option<&Json>) -> (text: Option<Option<String>>)
    ensures
        ({
            let wanted = optional_text_in(
                match value {
                    Some(v) => Some(v.model()),
                    None => None,
                },
            );
            match text {
                Some(text) => wanted == Some(opt_text(text)),
                None => wanted is None,
            }
        }),
{
    match value {
        None => Some(None),
        Some(Json::Null) => Some(None),
        Some(Json::Str(text)) => Some(Some(text.clone())),
        Some(_) => None,
    }
}

/// Reads what a member event says at its surface.
pub fn read_member_shape(event: &Json) -> (shape: Option<MemberShape>)
    ensures
        match shape {
            Some(shape) => shape_in(event.model()) == Some(
                (shape.event_type@, opt_text(shape.state_key), opt_text(shape.membership)),
            ),
            None => shape_in(event.model()) is None,
        },
{
    if !event.is_record(3, 3) {
        return None;
    }
    let event_type = match event.field("type", 0) {
        Some(Json::Str(ty)) => ty.clone(),
        _ => return None,
    };
    let state_key = match read_optional_text(event.field("state_key", 1)) {
        Some(key) => key,
        None => return None,
    };
    let content = match event.field("content", 2) {
        Some(content) => content,
        None => return None,
    };
    if !content.is_record(1, 1) {
        return None;
    }
    match read_optional_text(content.field("membership", 0)) {
        Some(membership) => Some(MemberShape { event_type, state_key, membership }),
        None => None,
    }
}

/// The local user whose membership a member event ends: the target of a leave or a ban, where it
/// is a user of this server.
pub open spec fn ended_member(shape: Option<MemberShape>, our_name: Seq<char>) -> Option<Seq<char>> {
    match shape {
        None => None,
        Some(shape) => if shape.event_type@ == "m.room.member"@ && (opt_text(shape.membership)
            == Some("leave"@) || opt_text(shape.membership) == Some("ban"@)) && (
        shape.state_key matches Some(key) && valid_user_id(key@) && server_part(key@) == our_name) {
            Some(shape.state_key->0@)
        } else {
            None
        },
    }
}

/// Which local user's membership a member event ends.
pub fn ended_local_member(shape: &Option<MemberShape>, our_name: &str) -> (user: Option<String>)
    ensures
        opt_text(user) == ended_member(*shape, our_name@),
{
    match shape {
        None => None,
        Some(shape) => {
            if !same_text(shape.event_type.as_str(), "m.room.member") {
                return None;
            }
            if !opt_is(&shape.membership, "leave") && !opt_is(&shape.membership, "ban") {
                return None;
            }
            match &shape.state_key {
                None => None,
                Some(key) => match user_server(key.as_str()) {
                    Some(server) => {
                        if same_text(server.as_str(), our_name) {
                            Some(key.clone())
                        } else {
                            None
                        }
                    },
                    None => None,
                },
            }
        },
    }
}

/// Whether a user lives on a server.
pub open spec fn lives_on(user: Seq<char>, server: Seq<char>) -> bool {
    valid_user_id(user) && server_part(user) == server
}

/// Whether a user lives on a server.
pub fn user_lives_on(user: &str, server: &str) -> (yes: bool)
    ensures
        yes == lives_on(user@, server@),
{
    match user_server(user) {
        Some(home) => same_text(home.as_str(), server),
        None => false,
    }
}

/// What is known of a transaction so far.
#[derive(Debug, PartialEq, Eq)]
pub struct Tally {
    /// The result of each event that was named: nothing, or an error.
    pub verdicts: Vec<(String, Option<String>)>,
    /// The events that were named.
    pub seen: TextSet,
    /// The rooms in which something was staged.
    pub touched: TextSet,
    /// The events that the sender is known to hold.
    pub holds: TextSet,
    /// Whether everything that can be named was staged so far.
    pub all_staged: bool,
    /// The version of each room that was looked up: a version, or that there is none to be had.
    pub versions: Vec<(Option<String>, Option<String>)>,
}

/// What a tally is.
pub struct TallyModel {
    pub verdicts: Seq<(Seq<char>, Option<Seq<char>>)>,
    pub seen: Set<Seq<char>>,
    pub touched: Set<Seq<char>>,
    pub holds: Set<Seq<char>>,
    pub all_staged: bool,
    pub versions: Seq<(Option<Seq<char>>, Option<Seq<char>>)>,
}

/// The position of the verdict on an event, or the number of verdicts.
pub open spec fn verdict_position(
    verdicts: Seq<(Seq<char>, Option<Seq<char>>)>,
    id: Seq<char>,
    from: int,
) -> int
    decreases verdicts.len() - from,
{
    if from < 0 || from >= verdicts.len() {
        verdicts.len() as int
    } else if verdicts[from].0 == id {
        from
    } else {
        verdict_position(verdicts, id, from + 1)
    }
}

/// The verdicts with one more; a second verdict on an event replaces the first.
pub open spec fn with_verdict(
    verdicts: Seq<(Seq<char>, Option<Seq<char>>)>,
    id: Seq<char>,
    error: Option<Seq<char>>,
) -> Seq<(Seq<char>, Option<Seq<char>>)> {
    let at = verdict_position(verdicts, id, 0);
    if at < verdicts.len() {
        verdicts.update(at, (id, error))
    } else {
        verdicts.push((id, error))
    }
}

/// What was looked up for a room, from `from` on.
pub open spec fn cached_from(
    versions: Seq<(Option<Seq<char>>, Option<Seq<char>>)>,
    room: Option<Seq<char>>,
    from: int,
) -> Option<Option<Seq<char>>>
    decreases versions.len() - from,
{
    if from < 0 || from >= versions.len() {
        None
    } else if versions[from].0 == room {
        Some(versions[from].1)
    } else {
        cached_from(versions, room, from + 1)
    }
}

impl TallyModel {
    /// Before the first event.
    pub open spec fn start() -> TallyModel {
        TallyModel {
            verdicts: Seq::empty(),
            seen: Set::empty(),
            touched: Set::empty(),
            holds: Set::empty(),
            all_staged: true,
            versions: Seq::empty(),
        }
    }

    /// After an event was dealt with out of band.
    pub open spec fn consumed(self, id: Seq<char>) -> TallyModel {
        TallyModel { verdicts: with_verdict(self.verdicts, id, None), ..self }
    }

    /// After a fault that a resend may mend.
    pub open spec fn faulted(self) -> TallyModel {
        TallyModel { all_staged: false, ..self }
    }

    /// After a room's version was decided: a version, or that there is none to be had.
    pub open spec fn decided(
        self,
        room: Option<Seq<char>>,
        version: Option<Seq<char>>,
    ) -> TallyModel {
        TallyModel { versions: self.versions.push((room, version)), ..self }
    }

    /// What was decided of a room's version, if it was.
    pub open spec fn cached(self, room: Option<Seq<char>>) -> Option<Option<Seq<char>>> {
        cached_from(self.versions, room, 0)
    }

    /// After an event was named. Its sender holds it and its state parents; it holds the timeline
    /// parents too where it is the author's own server.
    pub open spec fn named(self, event: EventModel, origin: Seq<char>) -> TallyModel {
        let known = self.holds.insert(event.event_id).union(event.prev_state_events.to_set());
        TallyModel {
            seen: self.seen.insert(event.event_id),
            holds: if lives_on(event.sender, origin) {
                known.union(event.prev_events.to_set())
            } else {
                known
            },
            ..self
        }
    }

    /// After an event was staged, or its staging failed.
    pub open spec fn staged(self, event: EventModel, error: Option<Seq<char>>) -> TallyModel {
        TallyModel {
            verdicts: with_verdict(self.verdicts, event.event_id, error),
            touched: if error is None {
                self.touched.insert(event.room_id)
            } else {
                self.touched
            },
            all_staged: self.all_staged && error is None,
            ..self
        }
    }
}

/// Verdicts as they are.
pub open spec fn verdict_models(verdicts: Seq<(String, Option<String>)>) -> Seq<
    (Seq<char>, Option<Seq<char>>),
> {
    verdicts.map_values(|v: (String, Option<String>)| (v.0@, opt_text(v.1)))
}

/// Decided versions as they are.
pub open spec fn version_models(versions: Seq<(Option<String>, Option<String>)>) -> Seq<
    (Option<Seq<char>>, Option<Seq<char>>),
> {
    versions.map_values(|v: (Option<String>, Option<String>)| (opt_text(v.0), opt_text(v.1)))
}

impl View for Tally {
    type V = TallyModel;

    open spec fn view(&self) -> TallyModel {
        TallyModel {
            verdicts: verdict_models(self.verdicts@),
            seen: self.seen@,
            touched: self.touched@,
            holds: self.holds@,
            all_staged: self.all_staged,
            versions: version_models(self.versions@),
        }
    }
}

/// Whether two optional texts are the same.
fn same_opt(a: &Option<String>, b: &Option<String>) -> (same: bool)
    ensures
        same == (opt_text(*a) == opt_text(*b)),
{
    match (a, b) {
        (Some(a), Some(b)) => same_text(a.as_str(), b.as_str()),
        (None, None) => true,
        _ => false,
    }
}

/// Puts a verdict into a list of verdicts.
fn put_verdict(
    verdicts: Vec<(String, Option<String>)>,
    id: String,
    error: Option<String>,
) -> (now: Vec<(String, Option<String>)>)
    ensures
        verdict_models(now@) == with_verdict(verdict_models(verdicts@), id@, opt_text(error)),
{
    let ghost before = verdict_models(verdicts@);
    let mut now = verdicts;
    let mut i: usize = 0;
    while i < now.len()
        invariant
            i <= now.len(),
            before == verdict_models(now@),
            before == verdict_models(verdicts@),
            verdict_position(before, id@, 0) == verdict_position(before, id@, i as int),
        decreases now.len() - i,
    {
        if same_text(now[i].0.as_str(), id.as_str()) {
            now.set(i, (id, error));
            assert(verdict_models(now@) =~= before.update(i as int, (id@, opt_text(error))));
            return now;
        }
        i += 1;
    }
    now.push((id, error));
    assert(verdict_models(now@) =~= before.push((id@, opt_text(error))));
    now
}

impl Tally {
    /// Before the first event.
    pub fn start() -> (tally: Tally)
        ensures
            tally@ == TallyModel::start(),
    {
        let tally = Tally {
            verdicts: Vec::new(),
            seen: TextSet::new(),
            touched: TextSet::new(),
            holds: TextSet::new(),
            all_staged: true,
            versions: Vec::new(),
        };
        assert(verdict_models(tally.verdicts@) =~= Seq::empty());
        assert(version_models(tally.versions@) =~= Seq::empty());
        tally
    }

    /// After an event was dealt with out of band.
    pub fn consumed(self, id: String) -> (tally: Tally)
        ensures
            tally@ == self@.consumed(id@),
    {
        let verdicts = put_verdict(self.verdicts, id, None);
        Tally {
            verdicts,
            seen: self.seen,
            touched: self.touched,
            holds: self.holds,
            all_staged: self.all_staged,
            versions: self.versions,
        }
    }

    /// After a fault that a resend may mend.
    pub fn faulted(self) -> (tally: Tally)
        ensures
            tally@ == self@.faulted(),
    {
        Tally {
            verdicts: self.verdicts,
            seen: self.seen,
            touched: self.touched,
            holds: self.holds,
            all_staged: false,
            versions: self.versions,
        }
    }

    /// After a room's version was decided.
    pub fn decided(self, room: Option<String>, version: Option<String>) -> (tally: Tally)
        ensures
            tally@ == self@.decided(opt_text(room), opt_text(version)),
    {
        let mut versions = self.versions;
        let ghost before = version_models(versions@);
        versions.push((room, version));
        assert(version_models(versions@) =~= before.push((opt_text(room), opt_text(version))));
        Tally {
            verdicts: self.verdicts,
            seen: self.seen,
            touched: self.touched,
            holds: self.holds,
            all_staged: self.all_staged,
            versions,
        }
    }

    /// What was decided of a room's version, if it was.
    pub fn cached(&self, room: &Option<String>) -> (version: Option<Option<String>>)
        ensures
            match version {
                Some(version) => self@.cached(opt_text(*room)) == Some(opt_text(version)),
                None => self@.cached(opt_text(*room)) is None,
            },
    {
        let ghost all = version_models(self.versions@);
        let mut i: usize = 0;
        while i < self.versions.len()
            invariant
                i <= self.versions.len(),
                all == version_models(self.versions@),
                cached_from(all, opt_text(*room), 0) == cached_from(all, opt_text(*room), i as int),
            decreases self.versions.len() - i,
        {
            if same_opt(&self.versions[i].0, room) {
                return Some(copy_opt(&self.versions[i].1));
            }
            i += 1;
        }
        None
    }

    /// After an event was named; tells whether it is named for the first time.
    pub fn named(self, event: &Event, origin: &str) -> (outcome: (Tally, bool))
        ensures
            outcome.0@ == self@.named(event@, origin@),
            outcome.1 == !self@.seen.contains(event@.event_id),
    {
        let (seen, new) = self.seen.insert(event.event_id.clone());
        let (holds, _) = self.holds.insert(event.event_id.clone());
        let holds = holds.extend(&event.prev_state_events);
        let holds = if user_lives_on(event.sender.as_str(), origin) {
            holds.extend(&event.prev_events)
        } else {
            holds
        };
        (
            Tally {
                verdicts: self.verdicts,
                seen,
                touched: self.touched,
                holds,
                all_staged: self.all_staged,
                versions: self.versions,
            },
            new,
        )
    }

    /// After an event was staged, or its staging failed.
    pub fn staged(self, event: &Event, error: Option<String>) -> (tally: Tally)
        ensures
            tally@ == self@.staged(event@, opt_text(error)),
    {
        let ok = error.is_none();
        let touched = if ok {
            self.touched.insert(event.room_id.clone()).0
        } else {
            self.touched
        };
        let verdicts = put_verdict(self.verdicts, event.event_id.clone(), error);
        Tally {
            verdicts,
            seen: self.seen,
            touched,
            holds: self.holds,
            all_staged: self.all_staged && ok,
            versions: self.versions,
        }
    }
}

/// A membership that is held without the room's state: the event that gave it, and the version of
/// its room.
#[derive(Debug, PartialEq, Eq)]
pub struct Stub {
    pub event_id: String,
    pub room_version: String,
}

/// What is being done with a transaction.
#[derive(Debug, PartialEq, Eq)]
pub enum Stage {
    /// Reading the room and the surface of the next event.
    Peek,
    /// Reading whether a membership without room state is held for the user of a member event.
    ReadStub { room: String, user: String },
    /// Reading the event in full, under the version of that membership's room.
    ReadUpdate { room: String, user: String, stub: Stub },
    /// Storing the event over that membership.
    PutUpdate { room: String, user: String, event: Event, room_version: String },
    /// Looking up the version of the event's room.
    LookUp { claimed: Option<String> },
    /// Naming the event under a version.
    NameEvent { version: String },
    /// Staging the event.
    StageEvent { event: Event },
    /// Recording the transaction.
    Record,
    /// Telling the worker of the rooms in which something was staged.
    Poke,
    /// Reading our heads of the rooms that the answer speaks of.
    ReadHeads { rooms: Vec<String> },
    /// Answered.
    Answered { answer: Answer },
    /// Failed.
    Failed { error: FedError },
}

/// What came of it.
#[derive(Debug, PartialEq, Eq)]
pub enum Report {
    /// The room that the event claims, and its surface if it is a member event.
    Peeked { room: Option<String>, member: Option<MemberShape> },
    /// The membership without room state.
    Stub(Option<Stub>),
    /// A version that this server does not speak.
    NotSpoken,
    /// The event.
    Event(Event),
    /// An event that is malformed, but can be named.
    Malformed(String),
    /// Nothing that can be named.
    Unreadable,
    /// The version of the room.
    Version(String),
    /// No version now; a later try may find one.
    NoVersionYet,
    /// No version, now or later.
    NoVersion,
    /// The heads of some rooms, one for each.
    Heads(Vec<ForwardExtremities>),
    /// Done.
    Done,
    /// The store failed, or did not take what it was given.
    Fault(String),
}

/// The answer to a transaction: the result of each event that was named, and our heads of the
/// rooms concerned, without those that the sender is known to hold.
#[derive(Debug, PartialEq, Eq)]
pub struct Answer {
    pub pdus: Vec<(String, Option<String>)>,
    pub forward_extremities: Vec<(String, ForwardExtremities)>,
}

/// An inbound transaction.
#[derive(Debug, PartialEq, Eq)]
pub struct Inbound {
    pub origin: String,
    pub our_name: String,
    pub pdus: Vec<String>,
    pub advertised: Vec<(String, ForwardExtremities)>,
    /// Which event is being dealt with.
    pub next: usize,
    pub tally: Tally,
    pub stage: Stage,
}

/// The rooms of an advertisement.
pub open spec fn rooms_in(heads: Seq<(Seq<char>, Heads)>) -> Set<Seq<char>> {
    heads.map_values(|h: (Seq<char>, Heads)| h.0).to_set()
}

/// Heads of rooms without those that are known; a room of which nothing is left is left out.
pub open spec fn stripped_heads(
    ours: Seq<(Seq<char>, Heads)>,
    known: Set<Seq<char>>,
) -> Seq<(Seq<char>, Heads)>
    decreases ours.len(),
{
    if ours.len() == 0 {
        Seq::empty()
    } else {
        let before = stripped_heads(ours.drop_last(), known);
        let rest = ours.last().1.without(known);
        if rest.is_empty() {
            before
        } else {
            before.push((ours.last().0, rest))
        }
    }
}

impl Inbound {
    /// The position is within the events, and the event that is dealt with exists.
    pub open spec fn wf(self) -> bool {
        &&& self.next <= self.pdus@.len()
        &&& match self.stage {
            Stage::Peek | Stage::ReadStub { .. } | Stage::ReadUpdate { .. } | Stage::PutUpdate {
                ..
            } | Stage::LookUp { .. } | Stage::NameEvent { .. } | Stage::StageEvent { .. } => self.next
                < self.pdus@.len(),
            _ => self.next == self.pdus@.len(),
        }
        &&& self.stage is Record ==> self.tally@.all_staged
        &&& self.stage matches Stage::ReadHeads { rooms } ==> rising(texts(rooms@)) && texts(
            rooms@,
        ).to_set() == self.tally@.touched.union(rooms_in(advertisement(self.advertised@)))
    }

    /// Whether nothing but the position, the tally and the stage differ.
    pub open spec fn same_transaction(self, other: Inbound) -> bool {
        &&& self.origin == other.origin
        &&& self.our_name == other.our_name
        &&& self.pdus == other.pdus
        &&& self.advertised == other.advertised
    }

    /// Going on with the next event, or, after the last, with the record; a transaction of which
    /// something could not be staged is not recorded.
    pub open spec fn goes_on(self, after: Inbound, tally: TallyModel) -> bool {
        &&& after.next == self.next + 1
        &&& after.tally@ == tally
        &&& if self.next + 1 < self.pdus@.len() {
            after.stage is Peek
        } else if tally.all_staged {
            after.stage is Record
        } else {
            after.stage is Poke
        }
    }

    /// Staying with the event, in another stage.
    pub open spec fn turns(self, after: Inbound, tally: TallyModel) -> bool {
        after.next == self.next && after.tally@ == tally
    }

    /// Going on to find the version of the event's room: what was decided before holds.
    pub open spec fn seeks_version(self, after: Inbound, room: Option<Seq<char>>) -> bool {
        match self.tally@.cached(room) {
            Some(Some(version)) => self.turns(after, self.tally@) && (
            after.stage matches Stage::NameEvent { version: v } && v@ == version),
            Some(None) => self.goes_on(after, self.tally@),
            None => self.turns(after, self.tally@) && (after.stage matches Stage::LookUp { claimed: r }
                && opt_text(r) == room),
        }
    }

    /// How a report takes a transaction on.
    pub open spec fn follows(before: Inbound, report: Report, after: Inbound) -> bool {
        &&& before.same_transaction(after)
        &&& match (before.stage, report) {
            (Stage::Peek, Report::Peeked { room, member }) => match (
                room,
                ended_member(member, before.our_name@),
            ) {
                (Some(room), Some(user)) => before.turns(after, before.tally@) && (
                after.stage matches Stage::ReadStub { room: r, user: u } && r == room && u@ == user),
                _ => before.seeks_version(after, opt_text(room)),
            },
            (Stage::ReadStub { room, user }, Report::Stub(stub)) => match stub {
                Some(stub) => before.turns(after, before.tally@) && after.stage
                    == (Stage::ReadUpdate { room, user, stub }),
                None => before.seeks_version(after, Some(room@)),
            },
            (Stage::ReadStub { .. }, Report::Fault(_)) => before.goes_on(
                after,
                before.tally@.faulted(),
            ),
            (Stage::ReadUpdate { room, .. }, Report::NotSpoken | Report::Unreadable) => before.seeks_version(
                after,
                Some(room@),
            ),
            (Stage::ReadUpdate { .. }, Report::Malformed(id)) => before.goes_on(
                after,
                before.tally@.consumed(id@),
            ),
            (Stage::ReadUpdate { room, user, stub }, Report::Event(event)) => if !lives_on(
                event@.sender,
                before.origin@,
            ) || event@.room_id != room@ {
                before.seeks_version(after, Some(room@))
            } else if !event@.prev_state_events.contains(stub.event_id@) {
                before.goes_on(after, before.tally@.consumed(event@.event_id))
            } else {
                before.turns(after, before.tally@) && after.stage == (Stage::PutUpdate {
                    room,
                    user,
                    event,
                    room_version: stub.room_version,
                })
            },
            (Stage::PutUpdate { event, .. }, Report::Done) => before.goes_on(
                after,
                before.tally@.consumed(event@.event_id),
            ),
            (Stage::PutUpdate { .. }, Report::Fault(_)) => before.goes_on(
                after,
                before.tally@.faulted(),
            ),
            (Stage::LookUp { claimed: room }, Report::Version(version)) => before.turns(
                after,
                before.tally@.decided(opt_text(room), Some(version@)),
            ) && after.stage == (Stage::NameEvent { version }),
            (Stage::LookUp { .. }, Report::NoVersionYet) => before.goes_on(
                after,
                before.tally@.faulted(),
            ),
            (Stage::LookUp { claimed: room }, Report::NoVersion) => before.goes_on(
                after,
                before.tally@.decided(opt_text(room), None),
            ),
            (Stage::NameEvent { .. }, Report::Unreadable) => before.goes_on(after, before.tally@),
            (Stage::NameEvent { .. }, Report::Event(event)) => {
                let tally = before.tally@.named(event@, before.origin@);
                if before.tally@.seen.contains(event@.event_id) {
                    before.goes_on(after, tally)
                } else {
                    before.turns(after, tally) && after.stage == (Stage::StageEvent { event })
                }
            },
            (Stage::StageEvent { event }, Report::Done) => before.goes_on(
                after,
                before.tally@.staged(event@, None),
            ),
            (Stage::StageEvent { event }, Report::Fault(error)) => before.goes_on(
                after,
                before.tally@.staged(event@, Some(error@)),
            ),
            (Stage::Record, Report::Done) => before.turns(after, before.tally@)
                && after.stage is Poke,
            (Stage::Record, Report::Fault(error)) => before.turns(after, before.tally@)
                && after.stage == (Stage::Failed { error: FedError::Storage(error) }),
            (Stage::Poke, Report::Done) => {
                &&& before.turns(after, before.tally@)
                &&& after.stage matches Stage::ReadHeads { rooms }
                &&& rising(texts(rooms@))
                &&& texts(rooms@).to_set() == before.tally@.touched.union(
                    rooms_in(advertisement(before.advertised@)),
                )
            },
            (Stage::ReadHeads { rooms }, Report::Heads(heads)) if heads@.len() == rooms@.len() => {
                &&& before.turns(after, TallyModel::start())
                &&& after.stage matches Stage::Answered { answer }
                &&& verdict_models(answer.pdus@) == before.tally@.verdicts
                &&& advertisement(answer.forward_extremities@) == stripped_heads(
                    with_heads(texts(rooms@), heads_of(heads@)),
                    before.tally@.holds,
                )
            },
            _ => before == after,
        }
    }
}

/// Takes the known heads out of an advertisement.
fn strip_known(ours: &Vec<(String, ForwardExtremities)>, known: &TextSet) -> (rest: Vec<
    (String, ForwardExtremities),
>)
    ensures
        advertisement(rest@) == stripped_heads(advertisement(ours@), known@),
{
    let ghost all = advertisement(ours@);
    let mut rest: Vec<(String, ForwardExtremities)> = Vec::new();
    let mut i: usize = 0;
    assert(advertisement(rest@) =~= Seq::empty());
    while i < ours.len()
        invariant
            i <= ours.len(),
            all == advertisement(ours@),
            advertisement(rest@) == stripped_heads(all.take(i as int), known@),
        decreases ours.len() - i,
    {
        assert(all.take(i + 1).drop_last() =~= all.take(i as int));
        let left = ours[i].1.without(known);
        if !left.is_empty() {
            let ghost before = rest@;
            rest.push((ours[i].0.clone(), left));
            assert(advertisement(rest@) =~= advertisement(before).push(
                (all[i as int].0, left@),
            ));
        }
        i += 1;
    }
    assert(all.take(i as int) =~= all);
    rest
}

/// What the handler of a transaction needs done.
#[derive(Debug, PartialEq, Eq)]
pub enum Chore<'a> {
    /// Read the room and the surface of this event.
    Peek(&'a String),
    /// Read the membership held without room state for this user of this room.
    ReadStub { room: &'a String, user: &'a String },
    /// Read this event in full under this version, with its signatures checked.
    ReadUpdate { pdu: &'a String, version: &'a String },
    /// Store this event over the membership of this user.
    PutUpdate { room: &'a String, user: &'a String, event: &'a Event, version: &'a String },
    /// Look up the version of this event's room.
    LookUp(&'a String),
    /// Name this event under this version.
    NameEvent { pdu: &'a String, version: &'a String },
    /// Stage this event.
    StageEvent(&'a Event),
    /// Record the transaction.
    Record,
    /// Tell the worker of these rooms.
    Poke(Vec<String>),
    /// Read our heads of these rooms.
    ReadHeads(&'a Vec<String>),
    /// Answer, and reconcile the rooms that the sender advertised.
    Answer(&'a Answer),
    /// Answer with an error.
    Fail(&'a FedError),
}

/// A transaction but for its tally and its stage.
struct Rest {
    origin: String,
    our_name: String,
    pdus: Vec<String>,
    advertised: Vec<(String, ForwardExtremities)>,
    next: usize,
}

impl Rest {
    /// Whether a transaction has this rest.
    spec fn is_of(self, inbound: Inbound) -> bool {
        &&& self.origin == inbound.origin
        &&& self.our_name == inbound.our_name
        &&& self.pdus == inbound.pdus
        &&& self.advertised == inbound.advertised
    }

    /// Stays with the event, in another stage.
    fn turn(self, tally: Tally, stage: Stage) -> (after: Inbound)
        ensures
            self.is_of(after),
            after.next == self.next,
            after.tally == tally,
            after.stage == stage,
    {
        Inbound {
            origin: self.origin,
            our_name: self.our_name,
            pdus: self.pdus,
            advertised: self.advertised,
            next: self.next,
            tally,
            stage,
        }
    }

    /// Goes on with the next event, or with the record.
    fn go_on(self, tally: Tally) -> (after: Inbound)
        requires
            self.next < self.pdus@.len(),
        ensures
            self.is_of(after),
            after.next == self.next + 1,
            after.tally == tally,
            after.wf(),
            if self.next + 1 < self.pdus@.len() {
                after.stage is Peek
            } else if tally@.all_staged {
                after.stage is Record
            } else {
                after.stage is Poke
            },
    {
        let count = self.pdus.len();
        let stage = if self.next + 1 < count {
            Stage::Peek
        } else if tally.all_staged {
            Stage::Record
        } else {
            Stage::Poke
        };
        Inbound {
            origin: self.origin,
            our_name: self.our_name,
            pdus: self.pdus,
            advertised: self.advertised,
            next: self.next + 1,
            tally,
            stage,
        }
    }

    /// Goes on to find the version of the event's room.
    fn seek_version(self, tally: Tally, room: Option<String>) -> (after: Inbound)
        requires
            self.next < self.pdus@.len(),
        ensures
            self.is_of(after),
            after.wf(),
            after.tally == tally,
            match tally@.cached(opt_text(room)) {
                Some(Some(version)) => after.next == self.next && (
                after.stage matches Stage::NameEvent { version: v } && v@ == version),
                Some(None) => {
                    &&& after.next == self.next + 1
                    &&& if self.next + 1 < self.pdus@.len() {
                        after.stage is Peek
                    } else if tally@.all_staged {
                        after.stage is Record
                    } else {
                        after.stage is Poke
                    }
                },
                None => after.next == self.next && (after.stage matches Stage::LookUp { claimed: r }
                    && opt_text(r) == opt_text(room)),
            },
    {
        match tally.cached(&room) {
            Some(Some(version)) => self.turn(tally, Stage::NameEvent { version }),
            Some(None) => self.go_on(tally),
            None => self.turn(tally, Stage::LookUp { claimed: room }),
        }
    }

    /// The rooms that the answer speaks of: those touched, and those the sender advertised.
    fn answer_rooms(&self, tally: &Tally) -> (rooms: Vec<String>)
        ensures
            rising(texts(rooms@)),
            texts(rooms@).to_set() == tally@.touched.union(
                rooms_in(advertisement(self.advertised@)),
            ),
    {
        let mut named: Vec<String> = Vec::new();
        let mut i: usize = 0;
        while i < self.advertised.len()
            invariant
                i <= self.advertised.len(),
                named.len() == i,
                forall|k: int| 0 <= k < i ==> (#[trigger] named@[k])@ == self.advertised@[k].0@,
            decreases self.advertised.len() - i,
        {
            named.push(self.advertised[i].0.clone());
            i += 1;
        }
        assert(texts(named@) =~= advertisement(self.advertised@).map_values(
            |h: (Seq<char>, Heads)| h.0,
        ));
        TextSet::from_items(&tally.touched.items()).extend(&named).into_items()
    }
}

/// What follows from the check whether a transaction was processed before.
#[derive(Debug, PartialEq, Eq)]
pub enum Begun {
    /// The check failed.
    Failed(FedError),
    /// It was: it is answered without results, and nothing is staged.
    Duplicate(Answer),
    /// It was not.
    Process(Inbound),
}

impl Inbound {
    /// A transaction before its first event.
    pub open spec fn is_start(self) -> bool {
        &&& self.next == 0
        &&& self.tally@ == TallyModel::start()
        &&& if self.pdus@.len() > 0 {
            self.stage is Peek
        } else {
            self.stage is Record
        }
    }

    /// Begins a transaction, unless it was processed before.
    pub fn begin(
        seen: Result<bool, String>,
        origin: String,
        our_name: String,
        body: TransactionBody,
    ) -> (begun: Begun)
        ensures
            match seen {
                Err(error) => begun == Begun::Failed(FedError::Storage(error)),
                Ok(true) => begun matches Begun::Duplicate(answer) && answer.pdus@.len() == 0
                    && answer.forward_extremities@.len() == 0,
                Ok(false) => begun matches Begun::Process(inbound) && inbound.wf()
                    && inbound.is_start() && inbound.origin == origin && inbound.our_name
                    == our_name && inbound.pdus == body.pdus && inbound.advertised
                    == body.forward_extremities,
            },
    {
        match seen {
            Err(error) => Begun::Failed(FedError::Storage(error)),
            Ok(true) => Begun::Duplicate(
                Answer { pdus: Vec::new(), forward_extremities: Vec::new() },
            ),
            Ok(false) => {
                let stage = if body.pdus.len() > 0 {
                    Stage::Peek
                } else {
                    Stage::Record
                };
                Begun::Process(
                    Inbound {
                        origin,
                        our_name,
                        pdus: body.pdus,
                        advertised: body.forward_extremities,
                        next: 0,
                        tally: Tally::start(),
                        stage,
                    },
                )
            },
        }
    }

    /// What is needed now.
    pub fn chore(&self) -> (chore: Chore<'_>)
        requires
            self.wf(),
        ensures
            match self.stage {
                Stage::Peek => chore == Chore::Peek(&self.pdus@[self.next as int]),
                Stage::ReadStub { room, user } => chore == (Chore::ReadStub {
                    room: &room,
                    user: &user,
                }),
                Stage::ReadUpdate { stub, .. } => chore == (Chore::ReadUpdate {
                    pdu: &self.pdus@[self.next as int],
                    version: &stub.room_version,
                }),
                Stage::PutUpdate { room, user, event, room_version } => chore
                    == (Chore::PutUpdate {
                    room: &room,
                    user: &user,
                    event: &event,
                    version: &room_version,
                }),
                Stage::LookUp { .. } => chore == Chore::LookUp(&self.pdus@[self.next as int]),
                Stage::NameEvent { version } => chore == (Chore::NameEvent {
                    pdu: &self.pdus@[self.next as int],
                    version: &version,
                }),
                Stage::StageEvent { event } => chore == Chore::StageEvent(&event),
                Stage::Record => chore is Record,
                Stage::Poke => chore matches Chore::Poke(rooms) && rising(texts(rooms@)) && texts(
                    rooms@,
                ).to_set() == self.tally@.touched,
                Stage::ReadHeads { rooms } => chore == Chore::ReadHeads(&rooms),
                Stage::Answered { answer } => chore == Chore::Answer(&answer),
                Stage::Failed { error } => chore == Chore::Fail(&error),
            },
    {
        match &self.stage {
            Stage::Peek => Chore::Peek(&self.pdus[self.next]),
            Stage::ReadStub { room, user } => Chore::ReadStub { room, user },
            Stage::ReadUpdate { stub, .. } => Chore::ReadUpdate {
                pdu: &self.pdus[self.next],
                version: &stub.room_version,
            },
            Stage::PutUpdate { room, user, event, room_version } => Chore::PutUpdate {
                room,
                user,
                event,
                version: room_version,
            },
            Stage::LookUp { .. } => Chore::LookUp(&self.pdus[self.next]),
            Stage::NameEvent { version } => Chore::NameEvent {
                pdu: &self.pdus[self.next],
                version,
            },
            Stage::StageEvent { event } => Chore::StageEvent(event),
            Stage::Record => Chore::Record,
            Stage::Poke => Chore::Poke(self.tally.touched.items()),
            Stage::ReadHeads { rooms } => Chore::ReadHeads(rooms),
            Stage::Answered { answer } => Chore::Answer(answer),
            Stage::Failed { error } => Chore::Fail(error),
        }
    }

    /// Takes the transaction on from a report. A report that answers nothing that was asked
    /// changes nothing.
    pub fn step(self, report: Report) -> (after: Inbound)
        requires
            self.wf(),
        ensures
            after.wf(),
            Inbound::follows(self, report, after),
    {
        let Inbound { origin, our_name, pdus, advertised, next, tally, stage } = self;
        // The transaction without its tally and stage, to be completed below.
        let rest = Rest { origin, our_name, pdus, advertised, next };
        match (stage, report) {
            (Stage::Peek, Report::Peeked { room, member }) => {
                let user = ended_local_member(&member, rest.our_name.as_str());
                match (room, user) {
                    (Some(room), Some(user)) => rest.turn(tally, Stage::ReadStub { room, user }),
                    (room, _) => rest.seek_version(tally, room),
                }
            },
            (Stage::ReadStub { room, user }, Report::Stub(stub)) => match stub {
                Some(stub) => rest.turn(tally, Stage::ReadUpdate { room, user, stub }),
                None => rest.seek_version(tally, Some(room)),
            },
            (Stage::ReadStub { .. }, Report::Fault(_)) => rest.go_on(tally.faulted()),
            (Stage::ReadUpdate { room, .. }, Report::NotSpoken) => rest.seek_version(
                tally,
                Some(room),
            ),
            (Stage::ReadUpdate { room, .. }, Report::Unreadable) => rest.seek_version(
                tally,
                Some(room),
            ),
            (Stage::ReadUpdate { .. }, Report::Malformed(id)) => rest.go_on(tally.consumed(id)),
            (Stage::ReadUpdate { room, user, stub }, Report::Event(event)) => {
                if !user_lives_on(event.sender.as_str(), rest.origin.as_str()) || !same_text(
                    event.room_id.as_str(),
                    room.as_str(),
                ) {
                    return rest.seek_version(tally, Some(room));
                }
                if !holds_text(&event.prev_state_events, stub.event_id.as_str()) {
                    return rest.go_on(tally.consumed(event.event_id));
                }
                rest.turn(
                    tally,
                    Stage::PutUpdate { room, user, event, room_version: stub.room_version },
                )
            },
            (Stage::PutUpdate { event, .. }, Report::Done) => rest.go_on(
                tally.consumed(event.event_id),
            ),
            (Stage::PutUpdate { .. }, Report::Fault(_)) => rest.go_on(tally.faulted()),
            (Stage::LookUp { claimed: room }, Report::Version(version)) => {
                let tally = tally.decided(room, Some(version.clone()));
                rest.turn(tally, Stage::NameEvent { version })
            },
            (Stage::LookUp { .. }, Report::NoVersionYet) => rest.go_on(tally.faulted()),
            (Stage::LookUp { claimed: room }, Report::NoVersion) => rest.go_on(tally.decided(room, None)),
            (Stage::NameEvent { .. }, Report::Unreadable) => rest.go_on(tally),
            (Stage::NameEvent { .. }, Report::Event(event)) => {
                let (tally, new) = tally.named(&event, rest.origin.as_str());
                if new {
                    rest.turn(tally, Stage::StageEvent { event })
                } else {
                    rest.go_on(tally)
                }
            },
            (Stage::StageEvent { event }, Report::Done) => rest.go_on(tally.staged(&event, None)),
            (Stage::StageEvent { event }, Report::Fault(error)) => rest.go_on(
                tally.staged(&event, Some(error)),
            ),
            (Stage::Record, Report::Done) => rest.turn(tally, Stage::Poke),
            (Stage::Record, Report::Fault(error)) => rest.turn(
                tally,
                Stage::Failed { error: FedError::Storage(error) },
            ),
            (Stage::Poke, Report::Done) => {
                let rooms = rest.answer_rooms(&tally);
                rest.turn(tally, Stage::ReadHeads { rooms })
            },
            (Stage::ReadHeads { rooms }, Report::Heads(heads)) => {
                if heads.len() != rooms.len() {
                    return rest.turn(tally, Stage::ReadHeads { rooms });
                }
                let (_, ours) = pair_heads(&rooms, &heads);
                let forward_extremities = strip_known(&ours, &tally.holds);
                let answer = Answer { pdus: tally.verdicts, forward_extremities };
                rest.turn(Tally::start(), Stage::Answered { answer })
            },
            (stage, _) => rest.turn(tally, stage),
        }
    }
}

/// A run of a transaction: the states it goes through, and the reports that took it on.
pub open spec fn is_run(states: Seq<Inbound>, reports: Seq<Report>) -> bool {
    &&& states.len() == reports.len() + 1
    &&& states[0].wf() && states[0].is_start()
    &&& forall|i: int|
        0 <= i < reports.len() ==> Inbound::follows(
            states[i],
            #[trigger] reports[i],
            states[i + 1],
        )
}

/// Whether a report is of a fault that a resend may mend: the store failed, or a version cannot
/// be had now.
pub open spec fn is_fault(stage: Stage, report: Report) -> bool {
    match stage {
        Stage::ReadStub { .. } | Stage::PutUpdate { .. } | Stage::StageEvent { .. } => report is Fault,
        Stage::LookUp { .. } => report is NoVersionYet,
        _ => false,
    }
}

proof fn all_staged_means_no_fault(states: Seq<Inbound>, reports: Seq<Report>, at: int)
    requires
        is_run(states, reports),
        0 <= at < states.len(),
        !(states[at].stage is Answered),
        states[at].tally@.all_staged,
    ensures
        forall|i: int| 0 <= i < at ==> !is_fault(states[i].stage, #[trigger] reports[i]),
    decreases at,
{
    if at > 0 {
        assert(Inbound::follows(states[at - 1], reports[at - 1], states[at - 1 + 1]));
        all_staged_means_no_fault(states, reports, at - 1);
    }
}

/// Nothing is lost: a transaction is recorded as processed only after a run without any fault
/// that a resend may mend. After such a fault it stays unrecorded, and the peer sends it again.
pub proof fn recorded_only_without_fault(states: Seq<Inbound>, reports: Seq<Report>, at: int)
    requires
        is_run(states, reports),
        0 <= at < states.len(),
        states[at].stage is Record,
    ensures
        forall|i: int| 0 <= i < at ==> !is_fault(states[i].stage, #[trigger] reports[i]),
{
    run_is_wf(states, reports, at);
    all_staged_means_no_fault(states, reports, at);
}

proof fn run_is_wf(states: Seq<Inbound>, reports: Seq<Report>, at: int)
    requires
        is_run(states, reports),
        0 <= at < states.len(),
    ensures
        states[at].stage is Record ==> states[at].tally@.all_staged,
        states[at].stage matches Stage::StageEvent { event } ==> states[at].tally@.seen.contains(
            event@.event_id,
        ),
    decreases at,
{
    if at > 0 {
        assert(Inbound::follows(states[at - 1], reports[at - 1], states[at - 1 + 1]));
        run_is_wf(states, reports, at - 1);
    }
}

proof fn seen_grows(states: Seq<Inbound>, reports: Seq<Report>, i: int, j: int)
    requires
        is_run(states, reports),
        0 <= i <= j < states.len(),
        !(states[j].stage is Answered),
    ensures
        states[i].tally@.seen.subset_of(states[j].tally@.seen),
        states[i].next <= states[j].next,
    decreases j,
{
    if i < j {
        assert(Inbound::follows(states[j - 1], reports[j - 1], states[j - 1 + 1]));
        seen_grows(states, reports, i, j - 1);
    }
}

/// Whether no event has two verdicts.
pub open spec fn one_each(verdicts: Seq<(Seq<char>, Option<Seq<char>>)>) -> bool {
    forall|i: int, j: int|
        0 <= i < j < verdicts.len() ==> (#[trigger] verdicts[i]).0 != (#[trigger] verdicts[j]).0
}

proof fn verdict_position_is_first(
    verdicts: Seq<(Seq<char>, Option<Seq<char>>)>,
    id: Seq<char>,
    from: int,
)
    requires
        0 <= from <= verdicts.len(),
    ensures
        from <= verdict_position(verdicts, id, from) <= verdicts.len(),
        verdict_position(verdicts, id, from) < verdicts.len() ==> verdicts[verdict_position(
            verdicts,
            id,
            from,
        )].0 == id,
        forall|i: int|
            from <= i < verdict_position(verdicts, id, from) ==> (#[trigger] verdicts[i]).0 != id,
    decreases verdicts.len() - from,
{
    if from < verdicts.len() && verdicts[from].0 != id {
        verdict_position_is_first(verdicts, id, from + 1);
    }
}

proof fn with_verdict_keeps_one_each(
    verdicts: Seq<(Seq<char>, Option<Seq<char>>)>,
    id: Seq<char>,
    error: Option<Seq<char>>,
)
    requires
        one_each(verdicts),
    ensures
        one_each(with_verdict(verdicts, id, error)),
{
    verdict_position_is_first(verdicts, id, 0);
    let now = with_verdict(verdicts, id, error);
    assert forall|i: int, j: int| 0 <= i < j < now.len() implies (#[trigger] now[i]).0 != (
    #[trigger] now[j]).0 by {
        if j < verdicts.len() {
            assert(now[i].0 == verdicts[i].0 && now[j].0 == verdicts[j].0);
        } else {
            assert(now[i] == verdicts[i]);
        }
    }
}

proof fn tally_has_one_each(states: Seq<Inbound>, reports: Seq<Report>, at: int)
    requires
        is_run(states, reports),
        0 <= at < states.len(),
    ensures
        one_each(states[at].tally@.verdicts),
        states[at].stage matches Stage::Answered { answer } ==> one_each(
            verdict_models(answer.pdus@),
        ),
    decreases at,
{
    if at > 0 {
        let before = states[at - 1];
        assert(Inbound::follows(before, reports[at - 1], states[at - 1 + 1]));
        tally_has_one_each(states, reports, at - 1);
        match (before.stage, reports[at - 1]) {
            (Stage::ReadUpdate { .. }, Report::Malformed(id)) => {
                with_verdict_keeps_one_each(before.tally@.verdicts, id@, None);
            },
            (Stage::ReadUpdate { .. }, Report::Event(event)) => {
                with_verdict_keeps_one_each(before.tally@.verdicts, event@.event_id, None);
            },
            (Stage::PutUpdate { event, .. }, Report::Done) => {
                with_verdict_keeps_one_each(before.tally@.verdicts, event@.event_id, None);
            },
            (Stage::StageEvent { event }, Report::Done) => {
                with_verdict_keeps_one_each(before.tally@.verdicts, event@.event_id, None);
            },
            (Stage::StageEvent { event }, Report::Fault(error)) => {
                with_verdict_keeps_one_each(before.tally@.verdicts, event@.event_id, Some(error@));
            },
            _ => {},
        }
    }
}

/// An event has one result: no identifier occurs twice in the answer to a transaction.
pub proof fn one_result_per_event(states: Seq<Inbound>, reports: Seq<Report>, at: int)
    requires
        is_run(states, reports),
        0 <= at < states.len(),
        states[at].stage is Answered,
    ensures
        one_each(verdict_models(states[at].stage->Answered_answer.pdus@)),
{
    tally_has_one_each(states, reports, at);
}

/// An event that a transaction repeats is staged once: two events that are staged at different
/// positions of a transaction have different identifiers.
pub proof fn staged_once(states: Seq<Inbound>, reports: Seq<Report>, i: int, j: int)
    requires
        is_run(states, reports),
        0 <= i < j < states.len(),
        states[i].stage is StageEvent,
        states[j].stage is StageEvent,
        states[i].next < states[j].next,
    ensures
        states[i].stage->StageEvent_event@.event_id != states[j].stage->StageEvent_event@.event_id,
    decreases j,
{
    assert(Inbound::follows(states[j - 1], reports[j - 1], states[j - 1 + 1]));
    if states[j - 1].stage is StageEvent {
        assert(i < j - 1);
        staged_once(states, reports, i, j - 1);
    } else {
        run_is_wf(states, reports, i);
        seen_grows(states, reports, i, j - 1);
    }
}

/// Whether the step at `i` named an event by this identifier.
pub open spec fn named_at(states: Seq<Inbound>, reports: Seq<Report>, i: int, id: Seq<char>) -> bool {
    states[i].stage is NameEvent && (reports[i] matches Report::Event(event) && event@.event_id
        == id)
}

/// Whether the step at `i` staged an event of this identifier.
pub open spec fn staged_at(states: Seq<Inbound>, reports: Seq<Report>, i: int, id: Seq<char>) -> bool {
    (states[i].stage matches Stage::StageEvent { event } && event@.event_id == id)
        && reports[i] is Done
}

proof fn named_is_seen(states: Seq<Inbound>, reports: Seq<Report>, i: int, at: int)
    requires
        is_run(states, reports),
        0 <= i < at < states.len(),
        !(states[at].stage is Answered),
        states[i].stage is NameEvent,
        reports[i] is Event,
    ensures
        states[at].tally@.seen.contains(reports[i]->Event_0@.event_id),
{
    assert(Inbound::follows(states[i], reports[i], states[i + 1]));
    seen_grows(states, reports, i + 1, at);
}

proof fn seen_was_staged(states: Seq<Inbound>, reports: Seq<Report>, at: int, id: Seq<char>)
    requires
        is_run(states, reports),
        0 <= at < states.len(),
        !(states[at].stage is Answered),
        states[at].tally@.all_staged,
        states[at].tally@.seen.contains(id),
        !(states[at].stage matches Stage::StageEvent { event } && event@.event_id == id),
    ensures
        exists|i: int| 0 <= i < at && #[trigger] staged_at(states, reports, i, id),
    decreases at,
{
    if at > 0 {
        let before = states[at - 1];
        assert(Inbound::follows(before, reports[at - 1], states[at - 1 + 1]));
        if staged_at(states, reports, at - 1, id) {
        } else {
            seen_was_staged(states, reports, at - 1, id);
        }
    }
}

/// Every event of a transaction is kept before the transaction counts as processed: whatever event
/// was named by then was staged, and the store took it.
pub proof fn recorded_means_staged(states: Seq<Inbound>, reports: Seq<Report>, at: int, named: int)
    requires
        is_run(states, reports),
        0 <= named < at < states.len(),
        states[at].stage is Record,
        states[named].stage is NameEvent,
        reports[named] is Event,
    ensures
        exists|i: int|
            0 <= i < at && #[trigger] staged_at(
                states,
                reports,
                i,
                reports[named]->Event_0@.event_id,
            ),
{
    run_is_wf(states, reports, at);
    named_is_seen(states, reports, named, at);
    seen_was_staged(states, reports, at, reports[named]->Event_0@.event_id);
}

/// Whether there is a verdict on an event.
pub open spec fn has_verdict(verdicts: Seq<(Seq<char>, Option<Seq<char>>)>, id: Seq<char>) -> bool {
    exists|j: int| 0 <= j < verdicts.len() && (#[trigger] verdicts[j]).0 == id
}

proof fn with_verdict_adds_one(
    verdicts: Seq<(Seq<char>, Option<Seq<char>>)>,
    id: Seq<char>,
    error: Option<Seq<char>>,
)
    ensures
        forall|other: Seq<char>| #[trigger]
            has_verdict(with_verdict(verdicts, id, error), other) == (other == id || has_verdict(
                verdicts,
                other,
            )),
        forall|j: int|
            #![trigger with_verdict(verdicts, id, error)[j]]
            0 <= j < with_verdict(verdicts, id, error).len() ==> with_verdict(
                verdicts,
                id,
                error,
            )[j] == (id, error) || (j < verdicts.len() && with_verdict(verdicts, id, error)[j]
                == verdicts[j]),
{
    verdict_position_is_first(verdicts, id, 0);
    let now = with_verdict(verdicts, id, error);
    let at = verdict_position(verdicts, id, 0);
    assert(now[at] == (id, error));
    assert forall|other: Seq<char>| #[trigger] has_verdict(now, other) == (other == id
        || has_verdict(verdicts, other)) by {
        if has_verdict(now, other) && other != id {
            let j = choose|j: int| 0 <= j < now.len() && (#[trigger] now[j]).0 == other;
            assert(verdicts[j] == now[j]);
        }
        if has_verdict(verdicts, other) && other != id {
            let j = choose|j: int| 0 <= j < verdicts.len() && (#[trigger] verdicts[j]).0 == other;
            assert(now[j] == verdicts[j]);
        }
        if other == id {
            assert(now[at].0 == other);
        }
    }
}

proof fn step_adds_verdict(before: Inbound, report: Report, after: Inbound)
    requires
        Inbound::follows(before, report, after),
        !(after.stage is Answered),
    ensures
        forall|id: Seq<char>| #[trigger]
            has_verdict(before.tally@.verdicts, id) ==> has_verdict(after.tally@.verdicts, id),
        before.stage matches Stage::StageEvent { event } && (report is Done || report is Fault)
            ==> has_verdict(after.tally@.verdicts, before.stage->StageEvent_event@.event_id),
        before.stage is PutUpdate && report is Done ==> has_verdict(
            after.tally@.verdicts,
            before.stage->PutUpdate_event@.event_id,
        ),
{
    match (before.stage, report) {
        (Stage::ReadUpdate { .. }, Report::Malformed(id)) => {
            with_verdict_adds_one(before.tally@.verdicts, id@, None);
        },
        (Stage::ReadUpdate { .. }, Report::Event(event)) => {
            with_verdict_adds_one(before.tally@.verdicts, event@.event_id, None);
        },
        (Stage::PutUpdate { event, .. }, Report::Done) => {
            with_verdict_adds_one(before.tally@.verdicts, event@.event_id, None);
        },
        (Stage::StageEvent { event }, Report::Done) => {
            with_verdict_adds_one(before.tally@.verdicts, event@.event_id, None);
        },
        (Stage::StageEvent { event }, Report::Fault(error)) => {
            with_verdict_adds_one(before.tally@.verdicts, event@.event_id, Some(error@));
        },
        _ => {},
    }
}

proof fn seen_has_verdict(states: Seq<Inbound>, reports: Seq<Report>, at: int, id: Seq<char>)
    requires
        is_run(states, reports),
        0 <= at < states.len(),
        !(states[at].stage is Answered),
        states[at].tally@.seen.contains(id),
        !(states[at].stage matches Stage::StageEvent { event } && event@.event_id == id),
    ensures
        has_verdict(states[at].tally@.verdicts, id),
    decreases at,
{
    if at > 0 {
        let before = states[at - 1];
        let report = reports[at - 1];
        assert(Inbound::follows(before, report, states[at - 1 + 1]));
        step_adds_verdict(before, report, states[at]);
        if before.stage matches Stage::StageEvent { event } && event@.event_id == id {
            assert(report is Done || report is Fault);
        } else {
            seen_has_verdict(states, reports, at - 1, id);
        }
    }
}

proof fn last_before_answer(states: Seq<Inbound>, reports: Seq<Report>, at: int) -> (last: int)
    requires
        is_run(states, reports),
        0 <= at < states.len(),
        states[at].stage is Answered,
    ensures
        0 <= last < at,
        states[last].stage is ReadHeads,
        reports[last] is Heads,
        states[last + 1] == states[at],
        states[last].tally@.verdicts == verdict_models(
            states[at].stage->Answered_answer.pdus@,
        ),
        Inbound::follows(states[last], reports[last], states[last + 1]),
    decreases at,
{
    assert(at > 0);
    assert(Inbound::follows(states[at - 1], reports[at - 1], states[at - 1 + 1]));
    if states[at - 1].stage is Answered {
        last_before_answer(states, reports, at - 1)
    } else {
        at - 1
    }
}

proof fn answered_stays(states: Seq<Inbound>, reports: Seq<Report>, i: int, j: int)
    requires
        is_run(states, reports),
        0 <= i <= j < states.len(),
        states[i].stage is Answered,
    ensures
        states[j].stage is Answered,
    decreases j,
{
    if i < j {
        answered_stays(states, reports, i, j - 1);
        assert(Inbound::follows(states[j - 1], reports[j - 1], states[j - 1 + 1]));
    }
}

/// Every event has a result: the answer to a transaction has one for each event that was named,
/// and for each that was stored over a membership held without room state.
pub proof fn every_event_has_a_result(
    states: Seq<Inbound>,
    reports: Seq<Report>,
    at: int,
    named: int,
    id: Seq<char>,
)
    requires
        is_run(states, reports),
        0 <= named < at < states.len(),
        states[at].stage is Answered,
        named_at(states, reports, named, id) || (states[named].stage matches Stage::PutUpdate {
            event,
            ..
        } && event@.event_id == id && reports[named] is Done),
    ensures
        exists|j: int|
            0 <= j < states[at].stage->Answered_answer.pdus@.len()
                && (#[trigger] states[at].stage->Answered_answer.pdus@[j]).0@ == id,
{
    let pdus = states[at].stage->Answered_answer.pdus@;
    let last = last_before_answer(states, reports, at);
    if named >= last {
        if named > last {
            answered_stays(states, reports, last + 1, named);
        }
        assert(false);
    }
    if states[named].stage is NameEvent {
        named_is_seen(states, reports, named, last);
        seen_has_verdict(states, reports, last, id);
    } else {
        put_has_verdict(states, reports, named, last);
    }
    let verdicts = verdict_models(pdus);
    let j = choose|j: int| 0 <= j < verdicts.len() && (#[trigger] verdicts[j]).0 == id;
    assert(pdus[j].0@ == id);
}

proof fn put_has_verdict(states: Seq<Inbound>, reports: Seq<Report>, put: int, at: int)
    requires
        is_run(states, reports),
        0 <= put < at < states.len(),
        !(states[at].stage is Answered),
        states[put].stage is PutUpdate,
        reports[put] is Done,
    ensures
        has_verdict(states[at].tally@.verdicts, states[put].stage->PutUpdate_event@.event_id),
    decreases at,
{
    assert(Inbound::follows(states[at - 1], reports[at - 1], states[at - 1 + 1]));
    step_adds_verdict(states[at - 1], reports[at - 1], states[at]);
    if put < at - 1 {
        put_has_verdict(states, reports, put, at - 1);
    }
}

/// Whether a step is what a result comes from. An error is what the store said when the event was
/// staged. No error is the result of an event that the store took, or of one that concerns a
/// membership held without room state and was dealt with there.
pub open spec fn accounts_for(
    stage: Stage,
    report: Report,
    id: Seq<char>,
    error: Option<Seq<char>>,
) -> bool {
    match error {
        Some(error) => (stage matches Stage::StageEvent { event } && event@.event_id == id) && (
        report matches Report::Fault(said) && said@ == error),
        None => match stage {
            Stage::StageEvent { event } => event@.event_id == id && report is Done,
            Stage::PutUpdate { event, .. } => event@.event_id == id && report is Done,
            Stage::ReadUpdate { .. } => match report {
                Report::Malformed(named) => named@ == id,
                Report::Event(event) => event@.event_id == id,
                _ => false,
            },
            _ => false,
        },
    }
}

proof fn verdict_has_cause(states: Seq<Inbound>, reports: Seq<Report>, at: int, j: int)
    requires
        is_run(states, reports),
        0 <= at < states.len(),
        !(states[at].stage is Answered),
        0 <= j < states[at].tally@.verdicts.len(),
    ensures
        exists|i: int|
            0 <= i < at && #[trigger] accounts_for(
                states[i].stage,
                reports[i],
                states[at].tally@.verdicts[j].0,
                states[at].tally@.verdicts[j].1,
            ),
    decreases at,
{
    if at > 0 {
        let before = states[at - 1];
        let report = reports[at - 1];
        let now = states[at].tally@.verdicts;
        assert(Inbound::follows(before, report, states[at - 1 + 1]));
        match (before.stage, report) {
            (Stage::ReadUpdate { .. }, Report::Malformed(id)) => {
                with_verdict_adds_one(before.tally@.verdicts, id@, None);
            },
            (Stage::ReadUpdate { .. }, Report::Event(event)) => {
                with_verdict_adds_one(before.tally@.verdicts, event@.event_id, None);
            },
            (Stage::PutUpdate { event, .. }, Report::Done) => {
                with_verdict_adds_one(before.tally@.verdicts, event@.event_id, None);
            },
            (Stage::StageEvent { event }, Report::Done) => {
                with_verdict_adds_one(before.tally@.verdicts, event@.event_id, None);
            },
            (Stage::StageEvent { event }, Report::Fault(error)) => {
                with_verdict_adds_one(before.tally@.verdicts, event@.event_id, Some(error@));
            },
            _ => {},
        }
        if accounts_for(before.stage, report, now[j].0, now[j].1) {
        } else {
            assert(j < before.tally@.verdicts.len() && before.tally@.verdicts[j] == now[j]);
            verdict_has_cause(states, reports, at - 1, j);
        }
    }
}

/// Every result is true: an event is answered without an error only where it was kept or dealt
/// with, and with an error only where the store said that.
pub proof fn results_are_true(states: Seq<Inbound>, reports: Seq<Report>, at: int, j: int)
    requires
        is_run(states, reports),
        0 <= at < states.len(),
        states[at].stage is Answered,
        0 <= j < states[at].stage->Answered_answer.pdus@.len(),
    ensures
        exists|i: int|
            0 <= i < at && #[trigger] accounts_for(
                states[i].stage,
                reports[i],
                states[at].stage->Answered_answer.pdus@[j].0@,
                opt_text(states[at].stage->Answered_answer.pdus@[j].1),
            ),
{
    let last = last_before_answer(states, reports, at);
    assert(states[last].tally@.verdicts[j] == verdict_models(
        states[at].stage->Answered_answer.pdus@,
    )[j]);
    verdict_has_cause(states, reports, last, j);
}

proof fn seen_was_named(states: Seq<Inbound>, reports: Seq<Report>, at: int, id: Seq<char>)
    requires
        is_run(states, reports),
        0 <= at < states.len(),
        !(states[at].stage is Answered),
        states[at].tally@.seen.contains(id),
    ensures
        exists|i: int| 0 <= i < at && #[trigger] named_at(states, reports, i, id),
    decreases at,
{
    if at > 0 {
        assert(Inbound::follows(states[at - 1], reports[at - 1], states[at - 1 + 1]));
        if named_at(states, reports, at - 1, id) {
        } else {
            seen_was_named(states, reports, at - 1, id);
        }
    }
}

/// Whether the step at `i` found out the version of a room, or that it has none to be had.
pub open spec fn decided_at(
    states: Seq<Inbound>,
    reports: Seq<Report>,
    i: int,
    room: Option<Seq<char>>,
    version: Option<Seq<char>>,
) -> bool {
    (states[i].stage matches Stage::LookUp { claimed } && opt_text(claimed) == room)
        && match version {
        Some(version) => reports[i] matches Report::Version(v) && v@ == version,
        None => reports[i] is NoVersion,
    }
}

proof fn cached_is_listed(
    versions: Seq<(Option<Seq<char>>, Option<Seq<char>>)>,
    room: Option<Seq<char>>,
    from: int,
)
    requires
        0 <= from <= versions.len(),
        cached_from(versions, room, from) is Some,
    ensures
        exists|j: int|
            from <= j < versions.len() && #[trigger] versions[j] == (
                room,
                cached_from(versions, room, from)->0,
            ),
    decreases versions.len() - from,
{
    if from < versions.len() && versions[from].0 != room {
        cached_is_listed(versions, room, from + 1);
    }
}

proof fn version_was_decided(states: Seq<Inbound>, reports: Seq<Report>, at: int, j: int)
    requires
        is_run(states, reports),
        0 <= at < states.len(),
        !(states[at].stage is Answered),
        0 <= j < states[at].tally@.versions.len(),
    ensures
        exists|i: int|
            0 <= i < at && #[trigger] decided_at(
                states,
                reports,
                i,
                states[at].tally@.versions[j].0,
                states[at].tally@.versions[j].1,
            ),
    decreases at,
{
    if at > 0 {
        let now = states[at].tally@.versions;
        assert(Inbound::follows(states[at - 1], reports[at - 1], states[at - 1 + 1]));
        if decided_at(states, reports, at - 1, now[j].0, now[j].1) {
        } else {
            assert(states[at - 1].tally@.versions[j] == now[j]);
            version_was_decided(states, reports, at - 1, j);
        }
    }
}

proof fn cached_was_decided(
    states: Seq<Inbound>,
    reports: Seq<Report>,
    at: int,
    room: Option<Seq<char>>,
)
    requires
        is_run(states, reports),
        0 <= at < states.len(),
        !(states[at].stage is Answered),
        states[at].tally@.cached(room) is Some,
    ensures
        exists|i: int|
            0 <= i < at && #[trigger] decided_at(
                states,
                reports,
                i,
                room,
                states[at].tally@.cached(room)->0,
            ),
{
    let versions = states[at].tally@.versions;
    cached_is_listed(versions, room, 0);
    let j = choose|j: int|
        0 <= j < versions.len() && #[trigger] versions[j] == (room, cached_from(versions, room, 0)->0);
    version_was_decided(states, reports, at, j);
}

/// The room that is read off an event: what it claims when it is first looked at.
pub open spec fn room_read(stage: Stage, report: Report) -> Option<Seq<char>> {
    match (stage, report) {
        (Stage::Peek, Report::Peeked { room, .. }) => opt_text(room),
        (Stage::ReadStub { room, .. }, _) => Some(room@),
        (Stage::ReadUpdate { room, .. }, _) => Some(room@),
        (Stage::LookUp { claimed }, _) => opt_text(claimed),
        _ => None,
    }
}

/// Whether an event of this identifier was named before the step at `at`.
pub open spec fn named_before(
    states: Seq<Inbound>,
    reports: Seq<Report>,
    at: int,
    id: Seq<char>,
) -> bool {
    exists|i: int| 0 <= i < at && #[trigger] named_at(states, reports, i, id)
}

/// Whether a room was found to have no version to be had, before the step at `at`.
pub open spec fn no_version_found(
    states: Seq<Inbound>,
    reports: Seq<Report>,
    at: int,
    room: Option<Seq<char>>,
) -> bool {
    exists|i: int| 0 <= i < at && #[trigger] decided_at(states, reports, i, room, None)
}

/// No event is passed over without a cause. The handler goes on from an event only when it was
/// staged, or the store failed at it; when nothing can be read of it; when one of the same
/// identifier was named before; when its room has no version to be had, as was found for it or for
/// an earlier event of the room; or when it concerns a membership held without room state and was
/// dealt with there.
pub proof fn passed_over_only_for_cause(states: Seq<Inbound>, reports: Seq<Report>, at: int)
    requires
        is_run(states, reports),
        0 <= at < reports.len(),
        states[at + 1].next != states[at].next,
    ensures
        states[at + 1].next == states[at].next + 1,
        match (states[at].stage, reports[at]) {
            (Stage::StageEvent { .. }, report) => report is Done || report is Fault,
            (Stage::NameEvent { .. }, Report::Unreadable) => true,
            (Stage::NameEvent { .. }, Report::Event(event)) => named_before(
                states,
                reports,
                at,
                event@.event_id,
            ),
            (Stage::LookUp { .. }, report) => report is NoVersionYet || report is NoVersion,
            (Stage::PutUpdate { .. }, report) => report is Done || report is Fault,
            (Stage::ReadStub { .. }, Report::Fault(_)) => true,
            (Stage::ReadUpdate { .. }, Report::Malformed(_)) => true,
            (Stage::ReadUpdate { room, stub, .. }, Report::Event(event)) => {
                ||| valid_user_id(event@.sender) && server_part(event@.sender)
                    == states[at].origin@ && event@.room_id == room@
                    && !event@.prev_state_events.contains(stub.event_id@)
                ||| no_version_found(states, reports, at, Some(room@))
            },
            (Stage::Peek, report) => no_version_found(
                states,
                reports,
                at,
                room_read(Stage::Peek, report),
            ),
            (Stage::ReadStub { room, .. }, _) => no_version_found(states, reports, at, Some(room@)),
            (Stage::ReadUpdate { room, .. }, _) => no_version_found(
                states,
                reports,
                at,
                Some(room@),
            ),
            _ => false,
        },
{
    let before = states[at];
    let report = reports[at];
    assert(Inbound::follows(before, report, states[at + 1]));
    match (before.stage, report) {
        (Stage::NameEvent { .. }, Report::Event(event)) => {
            seen_was_named(states, reports, at, event@.event_id);
        },
        (Stage::Peek, Report::Peeked { room, .. }) => {
            cached_was_decided(states, reports, at, opt_text(room));
        },
        (Stage::ReadStub { room, .. }, Report::Stub(_)) => {
            cached_was_decided(states, reports, at, Some(room@));
        },
        (Stage::ReadUpdate { room, .. }, Report::NotSpoken | Report::Unreadable) => {
            cached_was_decided(states, reports, at, Some(room@));
        },
        (Stage::ReadUpdate { room, .. }, Report::Event(event)) => {
            if !lives_on(event@.sender, before.origin@) || event@.room_id != room@ {
                cached_was_decided(states, reports, at, Some(room@));
            }
        },
        _ => {},
    }
}

/// An event is named under the version of its own room: the one that was looked up for the room
/// that it claims, now or for an earlier event.
pub proof fn named_under_its_version(states: Seq<Inbound>, reports: Seq<Report>, at: int)
    requires
        is_run(states, reports),
        0 <= at < reports.len(),
        !(states[at].stage is NameEvent),
        states[at + 1].stage is NameEvent,
    ensures
        states[at + 1].next == states[at].next,
        exists|i: int|
            0 <= i <= at && #[trigger] decided_at(
                states,
                reports,
                i,
                room_read(states[at].stage, reports[at]),
                Some(states[at + 1].stage->NameEvent_version@),
            ),
{
    let before = states[at];
    let report = reports[at];
    assert(Inbound::follows(before, report, states[at + 1]));
    match before.stage {
        Stage::LookUp { claimed } => {
            assert(decided_at(
                states,
                reports,
                at,
                opt_text(claimed),
                Some(states[at + 1].stage->NameEvent_version@),
            ));
        },
        stage => {
            cached_was_decided(states, reports, at, room_read(stage, report));
        },
    }
}

/// A version is looked up for the room that the event claims, once the event was read.
pub proof fn looked_up_for_its_room(states: Seq<Inbound>, reports: Seq<Report>, at: int)
    requires
        is_run(states, reports),
        0 <= at < reports.len(),
        !(states[at].stage is LookUp),
        states[at + 1].stage is LookUp,
    ensures
        states[at + 1].next == states[at].next,
        states[at].stage is Peek || states[at].stage is ReadStub || states[at].stage is ReadUpdate,
        opt_text(states[at + 1].stage->LookUp_claimed) == room_read(states[at].stage, reports[at]),
{
    assert(Inbound::follows(states[at], reports[at], states[at + 1]));
}

proof fn not_all_staged_means_fault(states: Seq<Inbound>, reports: Seq<Report>, at: int)
    requires
        is_run(states, reports),
        0 <= at < states.len(),
        !states[at].tally@.all_staged,
    ensures
        exists|i: int| 0 <= i < at && is_fault(states[i].stage, #[trigger] reports[i]),
    decreases at,
{
    if at > 0 {
        assert(Inbound::follows(states[at - 1], reports[at - 1], states[at - 1 + 1]));
        if is_fault(states[at - 1].stage, reports[at - 1]) {
        } else {
            not_all_staged_means_fault(states, reports, at - 1);
        }
    }
}

/// A transaction at which nothing failed is recorded before it is answered: a resend of it is then
/// known as one.
pub proof fn recorded_unless_faulted(states: Seq<Inbound>, reports: Seq<Report>, at: int)
    requires
        is_run(states, reports),
        0 <= at < states.len(),
        states[at].stage is Poke || states[at].stage is ReadHeads || states[at].stage is Answered,
    ensures
        (exists|i: int| 0 <= i < at && is_fault(states[i].stage, #[trigger] reports[i])) || (exists|
            i: int,
        |
            0 <= i < at && states[i].stage is Record && #[trigger] reports[i] is Done),
    decreases at,
{
    if at > 0 {
        let before = states[at - 1];
        assert(Inbound::follows(before, reports[at - 1], states[at - 1 + 1]));
        if before.stage is Record {
            assert(reports[at - 1] is Done);
        } else if before.stage is Poke || before.stage is ReadHeads || before.stage is Answered {
            recorded_unless_faulted(states, reports, at - 1);
        } else {
            not_all_staged_means_fault(states, reports, at);
        }
    }
}

/// A transaction fails as a whole only where it cannot be recorded, and says why.
pub proof fn fails_only_at_the_record(before: Inbound, report: Report, after: Inbound)
    requires
        Inbound::follows(before, report, after),
        !(before.stage is Failed),
        after.stage is Failed,
    ensures
        before.stage is Record,
        report matches Report::Fault(said) && after.stage == (Stage::Failed {
            error: FedError::Storage(said),
        }),
{
}

/// Everything of a transaction is read before it is recorded or answered: there is a step for each
/// of its events, in order, at which that event was first looked at.
pub proof fn every_event_is_read(states: Seq<Inbound>, reports: Seq<Report>, at: int, n: int)
    requires
        is_run(states, reports),
        0 <= at < states.len(),
        0 <= n < states[at].next,
    ensures
        exists|i: int|
            0 <= i < at && states[i].stage is Peek && states[i].next == n && #[trigger] reports[i]
                is Peeked,
    decreases at,
{
    if at > 0 {
        assert(Inbound::follows(states[at - 1], reports[at - 1], states[at - 1 + 1]));
        if n < states[at - 1].next {
            every_event_is_read(states, reports, at - 1, n);
        } else {
            read_before_dealt_with(states, reports, at - 1);
            assert(states[at - 1].next == n);
            if states[at - 1].stage is Peek {
                assert(reports[at - 1] is Peeked);
            }
        }
    }
}

proof fn read_before_dealt_with(states: Seq<Inbound>, reports: Seq<Report>, at: int)
    requires
        is_run(states, reports),
        0 <= at < states.len(),
    ensures
        states[at].stage is ReadStub || states[at].stage is ReadUpdate || states[at].stage
            is PutUpdate || states[at].stage is LookUp || states[at].stage is NameEvent
            || states[at].stage is StageEvent ==> exists|i: int|
            0 <= i < at && states[i].stage is Peek && states[i].next == states[at].next
                && #[trigger] reports[i] is Peeked,
    decreases at,
{
    if at > 0 {
        let before = states[at - 1];
        assert(Inbound::follows(before, reports[at - 1], states[at - 1 + 1]));
        read_before_dealt_with(states, reports, at - 1);
        if before.stage is Peek && states[at].next == before.next && !(states[at].stage is Peek) {
            assert(reports[at - 1] is Peeked);
        }
    }
}

/// A transaction is recorded, and answered, only after its last event.
pub proof fn nothing_is_left(states: Seq<Inbound>, reports: Seq<Report>, at: int)
    requires
        is_run(states, reports),
        0 <= at < states.len(),
    ensures
        states[at].pdus == states[0].pdus,
        states[at].stage is Record || states[at].stage is Poke || states[at].stage is ReadHeads
            || states[at].stage is Answered || states[at].stage is Failed ==> states[at].next
            == states[0].pdus@.len(),
        states[at].next <= states[0].pdus@.len(),
        !(states[at].stage is Record || states[at].stage is Poke || states[at].stage is ReadHeads
            || states[at].stage is Answered || states[at].stage is Failed) ==> states[at].next
            < states[0].pdus@.len(),
    decreases at,
{
    if at > 0 {
        nothing_is_left(states, reports, at - 1);
        assert(Inbound::follows(states[at - 1], reports[at - 1], states[at - 1 + 1]));
    }
}

/// Only what ends the membership of one of our own users is looked for among the memberships held
/// without room state: a `leave` or a `ban` of a user of this server. Each of those is.
pub proof fn only_ended_memberships_are_updates(before: Inbound, report: Report, after: Inbound)
    requires
        Inbound::follows(before, report, after),
        before.stage is Peek,
        report is Peeked,
    ensures
        after.stage is ReadStub <==> {
            let member = report->Peeked_member;
            &&& report->Peeked_room is Some
            &&& member is Some
            &&& member->0.event_type@ == "m.room.member"@
            &&& member->0.membership is Some
            &&& member->0.membership->0@ == "leave"@ || member->0.membership->0@ == "ban"@
            &&& member->0.state_key is Some
            &&& valid_user_id(member->0.state_key->0@)
            &&& server_part(member->0.state_key->0@) == before.our_name@
        },
        after.stage matches Stage::ReadStub { room, user } ==> Some(room)
            == report->Peeked_room && user@ == report->Peeked_member->0.state_key->0@,
{
}

/// A membership held without room state changes only on the word of the server whose user ends it,
/// by an event of that room that follows the one it came from; such an event is stored over it,
/// under the version of its room.
pub proof fn update_is_by_its_server(before: Inbound, report: Report, after: Inbound)
    requires
        Inbound::follows(before, report, after),
        before.stage is ReadUpdate,
        report is Event,
    ensures
        after.stage is PutUpdate <==> {
            let event = report->Event_0@;
            &&& valid_user_id(event.sender)
            &&& server_part(event.sender) == before.origin@
            &&& event.room_id == before.stage->ReadUpdate_room@
            &&& event.prev_state_events.contains(before.stage->ReadUpdate_stub.event_id@)
        },
        after.stage is PutUpdate ==> after.stage == (Stage::PutUpdate {
            room: before.stage->ReadUpdate_room,
            user: before.stage->ReadUpdate_user,
            event: report->Event_0,
            room_version: before.stage->ReadUpdate_stub.room_version,
        }),
{
}

/// Whether the step at `i` staged an event of this room.
pub open spec fn staged_in(
    states: Seq<Inbound>,
    reports: Seq<Report>,
    i: int,
    room: Seq<char>,
) -> bool {
    (states[i].stage matches Stage::StageEvent { event } && event@.room_id == room) && reports[i]
        is Done
}

/// The rooms that count as touched are those of which an event was staged: each of them, and no
/// other. The worker is told of them, and the answer speaks of them.
pub proof fn touched_are_the_staged(
    states: Seq<Inbound>,
    reports: Seq<Report>,
    at: int,
    room: Seq<char>,
)
    requires
        is_run(states, reports),
        0 <= at < states.len(),
        !(states[at].stage is Answered),
    ensures
        states[at].tally@.touched.contains(room) <==> exists|i: int|
            0 <= i < at && #[trigger] staged_in(states, reports, i, room),
    decreases at,
{
    if at > 0 {
        assert(Inbound::follows(states[at - 1], reports[at - 1], states[at - 1 + 1]));
        touched_are_the_staged(states, reports, at - 1, room);
        if states[at].tally@.touched.contains(room) && !states[at - 1].tally@.touched.contains(
            room,
        ) {
            assert(staged_in(states, reports, at - 1, room));
        }
        if exists|i: int| 0 <= i < at && #[trigger] staged_in(states, reports, i, room) {
            let i = choose|i: int| 0 <= i < at && #[trigger] staged_in(states, reports, i, room);
            if i < at - 1 {
                assert(states[at - 1].tally@.touched.contains(room));
            }
        }
    }
}

/// The answer speaks of a room exactly where an event of it was staged, or the sender advertised
/// heads of it.
pub proof fn answer_speaks_of(states: Seq<Inbound>, reports: Seq<Report>, at: int, room: Seq<char>)
    requires
        is_run(states, reports),
        0 <= at < states.len(),
        states[at].stage is ReadHeads,
    ensures
        texts(states[at].stage->ReadHeads_rooms@).contains(room) <==> ((exists|i: int|
            0 <= i < at && #[trigger] staged_in(states, reports, i, room)) || (exists|j: int|
            0 <= j < states[at].advertised@.len() && (#[trigger] states[at].advertised@[j]).0@
                == room)),
    decreases at,
{
    if at > 0 {
        let before = states[at - 1];
        assert(Inbound::follows(before, reports[at - 1], states[at - 1 + 1]));
        if before.stage is ReadHeads {
            answer_speaks_of(states, reports, at - 1, room);
            if exists|i: int| 0 <= i < at && #[trigger] staged_in(states, reports, i, room) {
                let i = choose|i: int| 0 <= i < at && #[trigger] staged_in(states, reports, i, room);
                assert(i < at - 1);
            }
        } else {
            touched_are_the_staged(states, reports, at, room);
            let rooms = texts(states[at].stage->ReadHeads_rooms@);
            let named = advertisement(before.advertised@).map_values(|h: (Seq<char>, Heads)| h.0);
            assert(rooms.to_set().contains(room) == rooms.contains(room));
            assert(rooms_in(advertisement(before.advertised@)).contains(room) == named.contains(
                room,
            ));
            if named.contains(room) {
                let j = choose|j: int| 0 <= j < named.len() && named[j] == room;
                assert(states[at].advertised@[j].0@ == room);
            }
            if exists|j: int|
                0 <= j < states[at].advertised@.len() && (#[trigger] states[at].advertised@[j]).0@
                    == room {
                let j = choose|j: int|
                    0 <= j < states[at].advertised@.len() && (#[trigger] states[at].advertised@[j]).0@
                        == room;
                assert(named[j] == room);
            }
        }
    }
}

/// Whether the step at `i` shows that the sender holds an event: it named that event, or one that
/// has it as a state parent, or one by a user of the sending server that has it as a parent.
pub open spec fn shows_held(
    states: Seq<Inbound>,
    reports: Seq<Report>,
    i: int,
    id: Seq<char>,
) -> bool {
    states[i].stage is NameEvent && (reports[i] matches Report::Event(event) && {
        ||| event@.event_id == id
        ||| event@.prev_state_events.contains(id)
        ||| valid_user_id(event@.sender) && server_part(event@.sender) == states[i].origin@
            && event@.prev_events.contains(id)
    })
}

/// The sender counts as holding an event exactly where the transaction shows it.
pub proof fn held_is_what_was_shown(
    states: Seq<Inbound>,
    reports: Seq<Report>,
    at: int,
    id: Seq<char>,
)
    requires
        is_run(states, reports),
        0 <= at < states.len(),
        !(states[at].stage is Answered),
    ensures
        states[at].tally@.holds.contains(id) <==> exists|i: int|
            0 <= i < at && #[trigger] shows_held(states, reports, i, id),
    decreases at,
{
    if at > 0 {
        let before = states[at - 1];
        assert(Inbound::follows(before, reports[at - 1], states[at - 1 + 1]));
        held_is_what_was_shown(states, reports, at - 1, id);
        if let (Stage::NameEvent { .. }, Report::Event(event)) = (before.stage, reports[at - 1]) {
            assert(event@.prev_state_events.to_set().contains(id)
                == event@.prev_state_events.contains(id));
            assert(event@.prev_events.to_set().contains(id) == event@.prev_events.contains(id));
        }
        if states[at].tally@.holds.contains(id) && !before.tally@.holds.contains(id) {
            assert(shows_held(states, reports, at - 1, id));
        }
        if exists|i: int| 0 <= i < at && #[trigger] shows_held(states, reports, i, id) {
            let i = choose|i: int| 0 <= i < at && #[trigger] shows_held(states, reports, i, id);
            if i < at - 1 {
                assert(before.tally@.holds.contains(id));
            }
        }
    }
}

proof fn filtered_contains(ids: Seq<Seq<char>>, known: Set<Seq<char>>, id: Seq<char>)
    ensures
        ids.filter(|x: Seq<char>| !known.contains(x)).contains(id) == (ids.contains(id)
            && !known.contains(id)),
{
    let keep = |x: Seq<char>| !known.contains(x);
    let kept = ids.filter(keep);
    if kept.contains(id) {
        let k = choose|k: int| 0 <= k < kept.len() && kept[k] == id;
        ids.lemma_filter_pred(keep, k);
        ids.lemma_filter_contains_rev(keep, id);
    }
    if ids.contains(id) && !known.contains(id) {
        let k = choose|k: int| 0 <= k < ids.len() && ids[k] == id;
        ids.lemma_filter_contains(keep, k);
    }
}

/// Whether heads of rooms give this event as a head of this room's timeline.
pub open spec fn tells_timeline(
    heads: Seq<(Seq<char>, Heads)>,
    room: Seq<char>,
    id: Seq<char>,
) -> bool {
    exists|j: int|
        0 <= j < heads.len() && (#[trigger] heads[j]).0 == room && heads[j].1.timeline.contains(id)
}

/// Whether heads of rooms give this event as a head of this room's state.
pub open spec fn tells_state(
    heads: Seq<(Seq<char>, Heads)>,
    room: Seq<char>,
    id: Seq<char>,
) -> bool {
    exists|j: int|
        0 <= j < heads.len() && (#[trigger] heads[j]).0 == room && heads[j].1.state.contains(id)
}

proof fn stripped_tells(
    ours: Seq<(Seq<char>, Heads)>,
    known: Set<Seq<char>>,
    room: Seq<char>,
    id: Seq<char>,
)
    ensures
        tells_timeline(stripped_heads(ours, known), room, id) == (tells_timeline(ours, room, id)
            && !known.contains(id)),
        tells_state(stripped_heads(ours, known), room, id) == (tells_state(ours, room, id)
            && !known.contains(id)),
    decreases ours.len(),
{
    if ours.len() > 0 {
        let fewer = ours.drop_last();
        let last = ours.last();
        stripped_tells(fewer, known, room, id);
        filtered_contains(last.1.timeline, known, id);
        filtered_contains(last.1.state, known, id);
        assert(ours =~= fewer.push(last));
        pushed_tells(fewer, last, room, id);
        pushed_tells(stripped_heads(fewer, known), (last.0, last.1.without(known)), room, id);
    }
}

proof fn pushed_tells(
    heads: Seq<(Seq<char>, Heads)>,
    last: (Seq<char>, Heads),
    room: Seq<char>,
    id: Seq<char>,
)
    ensures
        tells_timeline(heads.push(last), room, id) == (tells_timeline(heads, room, id) || last.0
            == room && last.1.timeline.contains(id)),
        tells_state(heads.push(last), room, id) == (tells_state(heads, room, id) || last.0 == room
            && last.1.state.contains(id)),
{
    let now = heads.push(last);
    assert(now[heads.len() as int] == last);
    if tells_timeline(heads, room, id) {
        let j = choose|j: int|
            0 <= j < heads.len() && (#[trigger] heads[j]).0 == room && heads[j].1.timeline.contains(id);
        assert(now[j] == heads[j]);
    }
    if tells_state(heads, room, id) {
        let j = choose|j: int|
            0 <= j < heads.len() && (#[trigger] heads[j]).0 == room && heads[j].1.state.contains(id);
        assert(now[j] == heads[j]);
    }
    if tells_timeline(now, room, id) {
        let j = choose|j: int|
            0 <= j < now.len() && (#[trigger] now[j]).0 == room && now[j].1.timeline.contains(id);
        if j < heads.len() {
            assert(now[j] == heads[j]);
        }
    }
    if tells_state(now, room, id) {
        let j = choose|j: int|
            0 <= j < now.len() && (#[trigger] now[j]).0 == room && now[j].1.state.contains(id);
        if j < heads.len() {
            assert(now[j] == heads[j]);
        }
    }
}

proof fn paired_tells(rooms: Seq<Seq<char>>, heads: Seq<Heads>, at: int, id: Seq<char>)
    requires
        rooms.len() == heads.len(),
        rooms.no_duplicates(),
        0 <= at < rooms.len(),
    ensures
        tells_timeline(with_heads(rooms, heads), rooms[at], id) == heads[at].timeline.contains(id),
        tells_state(with_heads(rooms, heads), rooms[at], id) == heads[at].state.contains(id),
    decreases rooms.len(),
{
    let fewer = rooms.drop_last();
    let less = heads.drop_last();
    assert(fewer.no_duplicates());
    pushed_tells(with_heads(fewer, less), (rooms.last(), heads.last()), rooms[at], id);
    if at < fewer.len() {
        paired_tells(fewer, less, at, id);
        assert(fewer[at] == rooms[at] && less[at] == heads[at]);
        assert(rooms[at] != rooms[rooms.len() - 1]);
    } else {
        paired_only_of_rooms(fewer, less, rooms[at], id);
        if fewer.contains(rooms[at]) {
            let k = choose|k: int| 0 <= k < fewer.len() && fewer[k] == rooms[at];
            assert(rooms[k] == rooms[at]);
        }
    }
}

proof fn paired_only_of_rooms(rooms: Seq<Seq<char>>, heads: Seq<Heads>, room: Seq<char>, id: Seq<char>)
    requires
        rooms.len() == heads.len(),
        !rooms.contains(room),
    ensures
        !tells_timeline(with_heads(rooms, heads), room, id),
        !tells_state(with_heads(rooms, heads), room, id),
    decreases rooms.len(),
{
    if rooms.len() > 0 {
        let fewer = rooms.drop_last();
        assert(rooms[rooms.len() - 1] != room);
        assert(!fewer.contains(room)) by {
            if fewer.contains(room) {
                let k = choose|k: int| 0 <= k < fewer.len() && fewer[k] == room;
                assert(rooms[k] == room);
            }
        }
        paired_only_of_rooms(fewer, heads.drop_last(), room, id);
        pushed_tells(
            with_heads(fewer, heads.drop_last()),
            (rooms.last(), heads.last()),
            room,
            id,
        );
    }
}

/// The answer tells the sender of exactly those of our heads that it does not hold: a head that was
/// read for a room stands in the answer under that room, unless the transaction shows that the
/// sender holds it.
pub proof fn unheld_heads_are_told(
    before: Inbound,
    report: Report,
    after: Inbound,
    at: int,
    id: Seq<char>,
)
    requires
        before.wf(),
        Inbound::follows(before, report, after),
        before.stage is ReadHeads,
        report is Heads,
        report->Heads_0@.len() == before.stage->ReadHeads_rooms@.len(),
        0 <= at < report->Heads_0@.len(),
    ensures
        after.stage is Answered,
        tells_timeline(
            advertisement(after.stage->Answered_answer.forward_extremities@),
            before.stage->ReadHeads_rooms@[at]@,
            id,
        ) == (texts(report->Heads_0@[at].timeline@).contains(id) && !before.tally@.holds.contains(
            id,
        )),
        tells_state(
            advertisement(after.stage->Answered_answer.forward_extremities@),
            before.stage->ReadHeads_rooms@[at]@,
            id,
        ) == (texts(report->Heads_0@[at].state@).contains(id) && !before.tally@.holds.contains(id)),
{
    let rooms = texts(before.stage->ReadHeads_rooms@);
    let heads = heads_of(report->Heads_0@);
    assert forall|i: int, j: int|
        0 <= i < rooms.len() && 0 <= j < rooms.len() && i != j implies rooms[i] != rooms[j] by {
        if i < j {
            assert(rooms[i] != rooms[j]);
        } else {
            assert(rooms[j] != rooms[i]);
        }
    }
    paired_tells(rooms, heads, at, id);
    stripped_tells(with_heads(rooms, heads), before.tally@.holds, rooms[at], id);
}

/// A transaction is opened exactly where its body can be read, it carries no more than 50 events,
/// its header attests a server, and an origin that the body names is that server.
pub proof fn opened_where_attested(
    body: Result<TransactionBody, BodyProblem>,
    header: Option<&str>,
    our_name: Seq<char>,
)
    ensures
        refusal(body, header, our_name) is None <==> {
            &&& body is Ok
            &&& body->Ok_0.pdus@.len() <= 50
            &&& auth_refusal(header, our_name) is None
            &&& body->Ok_0.origin is Some ==> attested(header) == Some(body->Ok_0.origin->0@)
        },
{
}

/// The answer advertises no head that the sender is known to hold.
pub proof fn held_heads_are_not_advertised(
    ours: Seq<(Seq<char>, Heads)>,
    known: Set<Seq<char>>,
    at: int,
    id: Seq<char>,
)
    requires
        0 <= at < stripped_heads(ours, known).len(),
        known.contains(id),
    ensures
        !stripped_heads(ours, known)[at].1.timeline.contains(id),
        !stripped_heads(ours, known)[at].1.state.contains(id),
    decreases ours.len(),
{
    let before = stripped_heads(ours.drop_last(), known);
    if at < before.len() {
        held_heads_are_not_advertised(ours.drop_last(), known, at, id);
    } else {
        let keep = |x: Seq<char>| !known.contains(x);
        let heads = ours.last().1;
        let rest = heads.without(known);
        if rest.timeline.contains(id) {
            let k = choose|k: int| 0 <= k < rest.timeline.len() && rest.timeline[k] == id;
            heads.timeline.lemma_filter_pred(keep, k);
        }
        if rest.state.contains(id) {
            let k = choose|k: int| 0 <= k < rest.state.len() && rest.state[k] == id;
            heads.state.lemma_filter_pred(keep, k);
        }
    }
}

proof fn nothing_is_filtered(ids: Seq<Seq<char>>)
    ensures
        ids.filter(|id: Seq<char>| !Set::<Seq<char>>::empty().contains(id)) == ids,
    decreases ids.len(),
{
    reveal(Seq::filter);
    if ids.len() > 0 {
        nothing_is_filtered(ids.drop_last());
        assert(ids =~= ids.drop_last().push(ids.last()));
    }
}

/// A transaction that proves nothing of what its sender holds, such as one without events, is
/// answered with all our heads.
pub proof fn unknown_sender_gets_all_heads(ours: Seq<(Seq<char>, Heads)>)
    requires
        forall|i: int| 0 <= i < ours.len() ==> !(#[trigger] ours[i]).1.is_empty(),
    ensures
        stripped_heads(ours, Set::empty()) == ours,
    decreases ours.len(),
{
    if ours.len() > 0 {
        unknown_sender_gets_all_heads(ours.drop_last());
        nothing_is_filtered(ours.last().1.timeline);
        nothing_is_filtered(ours.last().1.state);
        assert(ours.last().1.without(Set::empty()) == ours.last().1);
        assert(ours =~= ours.drop_last().push(ours.last()));
    }
}

/// The results of events, as they travel: an empty object, or one with an error.
pub open spec fn results_json(verdicts: Seq<(Seq<char>, Option<Seq<char>>)>) -> JsonModel {
    JsonModel::Object(
        verdicts.map_values(
            |v: (Seq<char>, Option<Seq<char>>)|
                (
                    v.0,
                    match v.1 {
                        Some(error) => JsonModel::Object(seq![("error"@, JsonModel::Str(error))]),
                        None => JsonModel::Object(Seq::empty()),
                    },
                ),
        ),
    )
}

/// A list of texts, as it travels.
pub open spec fn texts_json(items: Seq<Seq<char>>) -> JsonModel {
    JsonModel::Array(items.map_values(|t: Seq<char>| JsonModel::Str(t)))
}

/// Heads by room, as they travel.
pub open spec fn heads_json(rooms: Seq<(Seq<char>, Heads)>) -> JsonModel {
    JsonModel::Object(
        rooms.map_values(
            |r: (Seq<char>, Heads)|
                (
                    r.0,
                    JsonModel::Object(
                        seq![
                            ("timeline"@, texts_json(r.1.timeline)),
                            ("state"@, texts_json(r.1.state)),
                        ],
                    ),
                ),
        ),
    )
}

/// A list of texts as JSON.
pub fn texts_to_json(items: &Vec<String>) -> (json: Json)
    ensures
        json.model() == texts_json(texts(items@)),
{
    let mut out: Vec<Json> = Vec::new();
    let mut i: usize = 0;
    while i < items.len()
        invariant
            i <= items.len(),
            out.len() == i,
            forall|k: int| 0 <= k < i ==> (#[trigger] out@[k]).model() == JsonModel::Str(items@[k]@),
        decreases items.len() - i,
    {
        out.push(Json::Str(items[i].clone()));
        i += 1;
    }
    assert(crate::json::models(out@) =~= texts_json(texts(items@))->Array_0);
    Json::array(out)
}

/// Heads by room as JSON.
pub fn heads_to_json(rooms: &Vec<(String, ForwardExtremities)>) -> (json: Json)
    ensures
        json.model() == heads_json(advertisement(rooms@)),
{
    let mut out: Vec<(String, Json)> = Vec::new();
    let ghost want = heads_json(advertisement(rooms@))->Object_0;
    let mut i: usize = 0;
    while i < rooms.len()
        invariant
            i <= rooms.len(),
            out.len() == i,
            want == heads_json(advertisement(rooms@))->Object_0,
            forall|k: int|
                0 <= k < i ==> ((#[trigger] out@[k]).0@, out@[k].1.model()) == want[k],
        decreases rooms.len() - i,
    {
        let heads = Json::empty_object().and("timeline", texts_to_json(&rooms[i].1.timeline)).and(
            "state",
            texts_to_json(&rooms[i].1.state),
        );
        assert(heads.model()->Object_0 =~= want[i as int].1->Object_0);
        out.push((rooms[i].0.clone(), heads));
        i += 1;
    }
    assert(crate::json::member_models(out@) =~= want);
    Json::object(out)
}

impl Answer {
    /// The answer as it travels. The heads are left out where there are none.
    pub open spec fn json(self) -> JsonModel {
        let pdus = ("pdus"@, results_json(verdict_models(self.pdus@)));
        if self.forward_extremities@.len() == 0 {
            JsonModel::Object(seq![pdus])
        } else {
            JsonModel::Object(
                seq![
                    pdus,
                    (
                        "forward_extremities"@,
                        heads_json(advertisement(self.forward_extremities@)),
                    ),
                ],
            )
        }
    }

    /// The answer as JSON.
    pub fn to_json(&self) -> (json: Json)
        ensures
            json.model() == self.json(),
    {
        let mut out: Vec<(String, Json)> = Vec::new();
        let ghost want = results_json(verdict_models(self.pdus@))->Object_0;
        let mut i: usize = 0;
        while i < self.pdus.len()
            invariant
                i <= self.pdus.len(),
                out.len() == i,
                want == results_json(verdict_models(self.pdus@))->Object_0,
                forall|k: int|
                    0 <= k < i ==> ((#[trigger] out@[k]).0@, out@[k].1.model()) == want[k],
            decreases self.pdus.len() - i,
        {
            let verdict = match &self.pdus[i].1 {
                Some(error) => Json::empty_object().and("error", Json::string(error.as_str())),
                None => Json::empty_object(),
            };
            assert(verdict.model()->Object_0 =~= want[i as int].1->Object_0);
            out.push((self.pdus[i].0.clone(), verdict));
            i += 1;
        }
        assert(crate::json::member_models(out@) =~= want);
        let json = Json::empty_object().and("pdus", Json::object(out));
        if self.forward_extremities.len() == 0 {
            assert(json.model()->Object_0 =~= self.json()->Object_0);
            json
        } else {
            let json = json.and("forward_extremities", heads_to_json(&self.forward_extremities));
            assert(json.model()->Object_0 =~= self.json()->Object_0);
            json
        }
    }
}

proof fn result_is_found(verdicts: Seq<(Seq<char>, Option<Seq<char>>)>, at: int)
    requires
        one_each(verdicts),
        0 <= at < verdicts.len(),
    ensures
        results_json(verdicts).get(verdicts[at].0) == Some(
            match verdicts[at].1 {
                Some(error) => JsonModel::Object(seq![("error"@, JsonModel::Str(error))]),
                None => JsonModel::Object(Seq::empty()),
            },
        ),
{
    let members = results_json(verdicts)->Object_0;
    assert forall|k: int| 0 <= k < at implies (#[trigger] members[k]).0 != verdicts[at].0 by {
        assert(verdicts[k].0 != verdicts[at].0);
    }
    member_position_is(members, verdicts[at].0, 0, at);
}

/// What the sender reads of an event's result: under `pdus`, by the event's identifier, an object
/// that has an `error` exactly where the event has one, and says that.
pub proof fn result_is_read(answer: Answer, at: int)
    requires
        one_each(verdict_models(answer.pdus@)),
        0 <= at < answer.pdus@.len(),
    ensures
        ({
            let result = answer.json().get("pdus"@)->0.get(answer.pdus@[at].0@);
            &&& answer.json().get("pdus"@) is Some
            &&& result is Some
            &&& result->0.get("error"@) == match answer.pdus@[at].1 {
                Some(error) => Some(JsonModel::Str(error@)),
                None => None,
            }
        }),
{
    let verdicts = verdict_models(answer.pdus@);
    result_is_found(verdicts, at);
    member_position_is(answer.json()->Object_0, "pdus"@, 0, 0);
    match verdicts[at].1 {
        Some(error) => {
            member_position_is(seq![("error"@, JsonModel::Str(error))], "error"@, 0, 0);
        },
        None => {},
    }
}

/// A step of a transaction does what the law of its machine says.
pub proof fn transaction_steps_by_the_law(before: Inbound, report: Report, after: Inbound)
    requires
        call_ensures(Inbound::step, (before, report), after),
    ensures
        Inbound::follows(before, report, after),
        after.wf(),
{
}

/// A transaction that was processed before is answered without results and touches nothing; any other
/// is taken up from its first event, with nothing known of it yet.
pub proof fn resend_is_not_processed(
    seen: bool,
    origin: String,
    our_name: String,
    body: TransactionBody,
    begun: Begun,
)
    requires
        call_ensures(Inbound::begin, (Ok(seen), origin, our_name, body), begun),
    ensures
        seen ==> (begun matches Begun::Duplicate(answer) && answer.pdus@.len() == 0
            && answer.forward_extremities@.len() == 0),
        !seen ==> (begun matches Begun::Process(inbound) && {
            &&& inbound.next == 0
            &&& inbound.pdus == body.pdus
            &&& inbound.origin == origin
            &&& inbound.our_name == our_name
            &&& inbound.advertised == body.forward_extremities
            &&& inbound.tally@.all_staged
            &&& inbound.tally@.verdicts.len() == 0
            &&& body.pdus@.len() > 0 ==> inbound.stage is Peek
            &&& body.pdus@.len() == 0 ==> inbound.stage is Record
        }),
{
}

/// The worker is told of every room of which an event was staged.
pub proof fn worker_is_told(states: Seq<Inbound>, reports: Seq<Report>, at: int, rooms: Vec<String>, room: Seq<char>)
    requires
        is_run(states, reports),
        0 <= at < states.len(),
        states[at].stage is Poke,
        call_ensures(Inbound::chore, (&states[at],), Chore::Poke(rooms)),
    ensures
        texts(rooms@).contains(room) <==> exists|i: int|
            0 <= i < at && #[trigger] staged_in(states, reports, i, room),
{
    touched_are_the_staged(states, reports, at, room);
    assert(texts(rooms@).to_set().contains(room) == texts(rooms@).contains(room));
}

/// What the surface of an event says is read from its members: its type and its content must be there,
/// its key and its membership need not.
pub proof fn shape_is_read(event: Json, shape: Option<MemberShape>)
    requires
        call_ensures(read_member_shape, (&event,), shape),
        event is Object,
    ensures
        shape matches Some(shape) ==> event.model().text_at("type"@) == Some(shape.event_type@),
        shape matches Some(shape) ==> (shape.state_key matches Some(key) ==> event.model().text_at(
            "state_key"@,
        ) == Some(key@)),
        shape matches Some(shape) ==> (shape.state_key is None ==> event.model().text_at(
            "state_key"@,
        ) is None),
        shape matches Some(shape) ==> event.model().get("content"@) is Some,
        shape matches Some(shape) ==> (event.model().get("content"@)->0 is Object
            ==> event.model().get("content"@)->0.text_at("membership"@) == opt_text(
            shape.membership,
        )),
{
}

/// A transaction is opened exactly if its body could be read, it has at most fifty events, a header
/// attests the server that sends it, and it claims no other origin. The origin is the attested one,
/// and the body is as it came. What is wrong with the body is a bad request; what is wrong with the
/// sender is unauthorised.
pub proof fn opened_as_it_came(
    body: Result<TransactionBody, BodyProblem>,
    header: Option<&str>,
    our_name: &str,
    opened: Result<(String, TransactionBody), FedError>,
)
    requires
        call_ensures(open_transaction, (body, header, our_name), opened),
    ensures
        opened is Ok <==> {
            &&& body is Ok
            &&& body->Ok_0.pdus@.len() <= 50
            &&& auth_refusal(header, our_name@) is None
            &&& body->Ok_0.origin is None || opt_text(body->Ok_0.origin) == attested(header)
        },
        opened matches Ok(transaction) ==> attested(header) == Some(transaction.0@) && body == Ok::<
            TransactionBody,
            BodyProblem,
        >(transaction.1),
        opened is Err && (body is Err || body->Ok_0.pdus@.len() > 50) ==> opened->Err_0 is BadRequest,
        opened is Err && body is Ok && body->Ok_0.pdus@.len() <= 50 ==> opened->Err_0 is Unauthorized,
{
}

/// The answer to a transaction speaks of heads exactly if there are some.
pub proof fn heads_are_left_out_where_there_are_none(answer: Answer, json: Json)
    requires
        call_ensures(Answer::to_json, (&answer,), json),
    ensures
        json.model().get("forward_extremities"@) is Some <==> answer.forward_extremities@.len() > 0,
        json.model().get("pdus"@) is Some,
{
    reveal_strlit("pdus");
    reveal_strlit("forward_extremities");
    assert("pdus"@.len() == 4 && "forward_extremities"@.len() == 19);
    let members = json.model()->Object_0;
    member_position_is(members, "pdus"@, 0, 0);
    member_position_is(members, "forward_extremities"@, 0, 1);
}

/// An event that is an object has the shape of a member event exactly if its type is a text, its state
/// key and its membership are texts or are left out, and its content is there.
pub proof fn shape_is_owed(event: Json, shape: Option<MemberShape>)
    requires
        call_ensures(read_member_shape, (&event,), shape),
        event.model() is Object,
        event.model().get("content"@) is Some,
        event.model().get("content"@)->0 is Object,
    ensures
        shape is Some <==> {
            let key = event.model().get("state_key"@);
            let membership = event.model().get("content"@)->0.get("membership"@);
            &&& event.model().text_at("type"@) is Some
            &&& key is None || key->0 is Null || key->0 is Str
            &&& membership is None || membership->0 is Null || membership->0 is Str
        },
{
}

} // verus!
