//! The decisions of a room's actor.
//!
//! Exactly one state machine per room runs at a time; every event of the room goes through it. It
//! applies an event to a copy of the room and adopts the copy only once the event is stored, so a
//! refusal or a fault leaves the room as it was. The state machine itself, and the store, are
//! outside; here is what is decided on what they report.

use vstd::prelude::*;
use vstd::seq_lib::lemma_seq_contains_after_push;
use vstd::string::StringExecFns;

use crate::event::{Event, EventModel};
use crate::ids::{server_part, user_server, valid_user_id};
use crate::response::{
    error_response, Response, BAD_REQUEST, FORBIDDEN, INTERNAL_SERVER_ERROR, NOT_FOUND,
};
use crate::table::Table;
use crate::text::{same_text, text_le, texts};
use crate::textset::{rising, TextSet};

verus! {

/// How many commands wait for an actor before its senders do.
pub const ACTOR_INBOX: usize = 32;

/// Why an event did not make it into a room.
#[derive(Debug, PartialEq, Eq)]
pub enum RoomActorError {
    /// There is no such room.
    UnknownRoom,
    /// The event could not be built.
    Build(String),
    /// The event could not be applied: something that it needs is missing, or failed.
    Apply(String),
    /// A local event was refused by the auth rules. It is not stored.
    Rejected,
    /// The store failed.
    Storage(String),
    /// There was nothing to store.
    NotApplied,
    /// The actor is gone.
    ActorGone,
}

impl RoomActorError {
    /// The error in words.
    pub open spec fn text(self) -> Seq<char> {
        match self {
            RoomActorError::UnknownRoom => "no such room"@,
            RoomActorError::Build(e) => "building event: "@ + e@,
            RoomActorError::Apply(e) => "event rejected: "@ + e@,
            RoomActorError::Rejected => "event rejected by auth rules"@,
            RoomActorError::Storage(e) => "storage: "@ + e@,
            RoomActorError::NotApplied => "apply produced no event"@,
            RoomActorError::ActorGone => "room actor unavailable"@,
        }
    }

    /// The error in words.
    pub fn to_text(&self) -> (text: String)
        ensures
            text@ == self.text(),
    {
        match self {
            RoomActorError::UnknownRoom => "no such room".to_owned(),
            RoomActorError::Build(e) => "building event: ".to_owned().concat(e.as_str()),
            RoomActorError::Apply(e) => "event rejected: ".to_owned().concat(e.as_str()),
            RoomActorError::Rejected => "event rejected by auth rules".to_owned(),
            RoomActorError::Storage(e) => "storage: ".to_owned().concat(e.as_str()),
            RoomActorError::NotApplied => "apply produced no event".to_owned(),
            RoomActorError::ActorGone => "room actor unavailable".to_owned(),
        }
    }

    /// The status that a client is answered.
    pub open spec fn status(self) -> u16 {
        match self {
            RoomActorError::UnknownRoom => NOT_FOUND,
            RoomActorError::Build(_) => BAD_REQUEST,
            RoomActorError::Apply(_) | RoomActorError::Rejected => FORBIDDEN,
            _ => INTERNAL_SERVER_ERROR,
        }
    }

    /// The code that a client is answered.
    pub open spec fn errcode(self) -> Seq<char> {
        match self {
            RoomActorError::UnknownRoom => "M_NOT_FOUND"@,
            RoomActorError::Build(_) => "M_BAD_JSON"@,
            RoomActorError::Apply(_) | RoomActorError::Rejected => "M_FORBIDDEN"@,
            _ => "M_UNKNOWN"@,
        }
    }
}

/// The answer of a client whose event did not make it into a room.
pub fn room_actor_response(e: &RoomActorError) -> (response: Response)
    ensures
        response.is_error(e.status(), e.errcode(), e.text()),
{
    let text = e.to_text();
    match e {
        RoomActorError::UnknownRoom => error_response(NOT_FOUND, "M_NOT_FOUND", text.as_str()),
        RoomActorError::Build(_) => error_response(BAD_REQUEST, "M_BAD_JSON", text.as_str()),
        RoomActorError::Apply(_) => error_response(FORBIDDEN, "M_FORBIDDEN", text.as_str()),
        RoomActorError::Rejected => error_response(FORBIDDEN, "M_FORBIDDEN", text.as_str()),
        RoomActorError::Storage(_) => error_response(
            INTERNAL_SERVER_ERROR,
            "M_UNKNOWN",
            text.as_str(),
        ),
        RoomActorError::NotApplied => error_response(
            INTERNAL_SERVER_ERROR,
            "M_UNKNOWN",
            text.as_str(),
        ),
        RoomActorError::ActorGone => error_response(
            INTERNAL_SERVER_ERROR,
            "M_UNKNOWN",
            text.as_str(),
        ),
    }
}

/// A membership.
#[derive(Debug, Clone, Copy, PartialEq, Eq, Structural)]
pub enum Membership {
    Join,
    Invite,
    Leave,
    Ban,
    Knock,
}

/// The membership that a text names.
pub open spec fn membership_named(name: Seq<char>) -> Option<Membership> {
    if name == "join"@ {
        Some(Membership::Join)
    } else if name == "invite"@ {
        Some(Membership::Invite)
    } else if name == "leave"@ {
        Some(Membership::Leave)
    } else if name == "ban"@ {
        Some(Membership::Ban)
    } else if name == "knock"@ {
        Some(Membership::Knock)
    } else {
        None
    }
}

impl Membership {
    /// The membership that a text names.
    pub fn from_wire(name: &str) -> (membership: Option<Membership>)
        ensures
            membership == membership_named(name@),
    {
        if same_text(name, "join") {
            Some(Membership::Join)
        } else if same_text(name, "invite") {
            Some(Membership::Invite)
        } else if same_text(name, "leave") {
            Some(Membership::Leave)
        } else if same_text(name, "ban") {
            Some(Membership::Ban)
        } else if same_text(name, "knock") {
            Some(Membership::Knock)
        } else {
            None
        }
    }
}

/// The membership that a member event gives; none where it is missing or unknown, and none in an
/// event of another type.
pub open spec fn membership_in(event: EventModel) -> Option<Membership> {
    match event.membership() {
        Some(name) if event.is_member() => membership_named(name),
        _ => None,
    }
}

/// The membership that a member event gives; none where it is missing or unknown, and none in an
/// event of another type.
pub fn event_membership(event: &Event) -> (membership: Option<Membership>)
    ensures
        membership == membership_in(event@),
{
    if !event.is_member() {
        return None;
    }
    match event.content_str("membership") {
        Some(name) => Membership::from_wire(name.as_str()),
        None => None,
    }
}

/// An event of a room's current state, under its type and its state key.
#[derive(Debug, PartialEq, Eq)]
pub struct StateEntry {
    pub event_type: String,
    pub state_key: String,
    pub event: Event,
}

/// Whether an entry of the state is of a joined user of a server.
pub open spec fn joined_from(entry: StateEntry, server: Seq<char>) -> bool {
    &&& entry.event_type@ == "m.room.member"@
    &&& membership_in(entry.event@) == Some(Membership::Join)
    &&& valid_user_id(entry.state_key@)
    &&& server_part(entry.state_key@) == server
}

/// Whether an event is the departure of a user of a server: a leave or a ban.
pub open spec fn departs_from(event: EventModel, server: Seq<char>) -> bool {
    &&& event.is_member()
    &&& membership_in(event) == Some(Membership::Leave) || membership_in(event) == Some(
        Membership::Ban,
    )
    &&& event.state_key matches Some(key) && valid_user_id(key) && server_part(key) == server
}

/// Whether a server is sent an event: it has a joined user in the state, or the event is the
/// departure of one of its users. This server is never sent anything.
pub open spec fn is_destination(
    state: Seq<StateEntry>,
    event: EventModel,
    own_server: Seq<char>,
    server: Seq<char>,
) -> bool {
    &&& server != own_server
    &&& (exists|i: int| 0 <= i < state.len() && joined_from(#[trigger] state[i], server))
        || departs_from(event, server)
}

/// The server of the user whose departure an event is.
fn departing_server(event: &Event) -> (server: Option<String>)
    ensures
        match server {
            Some(server) => forall|s: Seq<char>| departs_from(event@, s) == (s == server@),
            None => forall|s: Seq<char>| !departs_from(event@, s),
        },
{
    if !event.is_member() {
        return None;
    }
    match event_membership(event) {
        Some(Membership::Leave) => {},
        Some(Membership::Ban) => {},
        _ => return None,
    }
    match &event.state_key {
        Some(key) => user_server(key.as_str()),
        None => None,
    }
}

/// The servers that a local event is sent to, in order.
pub fn outbound_destinations(current_state: &Vec<StateEntry>, event: &Event, own_server: &str) -> (dests:
    Vec<String>)
    ensures
        rising(texts(dests@)),
        forall|server: Seq<char>| #[trigger]
            texts(dests@).contains(server) == is_destination(
                current_state@,
                event@,
                own_server@,
                server,
            ),
{
    let ghost state = current_state@;
    let mut servers = TextSet::new();
    let mut i: usize = 0;
    while i < current_state.len()
        invariant
            i <= current_state.len(),
            state == current_state@,
            forall|server: Seq<char>| #[trigger]
                servers@.contains(server) == (server != own_server@ && exists|k: int|
                    0 <= k < i && joined_from(#[trigger] state[k], server)),
        decreases current_state.len() - i,
    {
        let entry = &current_state[i];
        let ghost before = servers@;
        let joined = match event_membership(&entry.event) {
            Some(Membership::Join) => true,
            _ => false,
        };
        if joined && same_text(entry.event_type.as_str(), "m.room.member") {
            match user_server(entry.state_key.as_str()) {
                Some(server) => {
                    if !same_text(server.as_str(), own_server) {
                        servers = servers.insert(server).0;
                    }
                },
                None => {},
            }
        }
        proof {
            assert forall|server: Seq<char>| #[trigger] servers@.contains(server) == (server
                != own_server@ && exists|k: int|
                0 <= k < i + 1 && joined_from(#[trigger] state[k], server)) by {
                if joined_from(state[i as int], server) && server != own_server@ {
                    assert(servers@.contains(server));
                }
                if before.contains(server) {
                    let k = choose|k: int| 0 <= k < i && joined_from(#[trigger] state[k], server);
                    assert(joined_from(state[k], server));
                }
            }
        }
        i += 1;
    }
    match departing_server(event) {
        Some(server) => {
            if !same_text(server.as_str(), own_server) {
                servers = servers.insert(server).0;
            }
        },
        None => {},
    }
    let ghost all = servers@;
    let dests = servers.into_items();
    proof {
        assert forall|server: Seq<char>| #[trigger] texts(dests@).contains(server)
            == is_destination(state, event@, own_server@, server) by {
            assert(texts(dests@).to_set().contains(server) == all.contains(server));
        }
    }
    dests
}

/// What applying an event brings about.
#[derive(Debug, PartialEq, Eq)]
pub enum Effect<D> {
    /// The event is to be stored.
    Persist(Event),
    /// The current state changes.
    UpdateCurrentState(D),
}

/// The event that is to be stored: the last one named.
pub open spec fn to_persist<D>(effects: Seq<Effect<D>>) -> Option<Event>
    decreases effects.len(),
{
    if effects.len() == 0 {
        None
    } else {
        match effects.last() {
            Effect::Persist(event) => Some(event),
            Effect::UpdateCurrentState(_) => to_persist(effects.drop_last()),
        }
    }
}

/// The change of the current state: the last one named.
pub open spec fn state_change<D>(effects: Seq<Effect<D>>) -> Option<D>
    decreases effects.len(),
{
    if effects.len() == 0 {
        None
    } else {
        match effects.last() {
            Effect::UpdateCurrentState(delta) => Some(delta),
            Effect::Persist(_) => state_change(effects.drop_last()),
        }
    }
}

/// Splits effects into the event to store and the change of the current state.
pub fn collect_effects<D>(effects: Vec<Effect<D>>) -> (collected: (Option<Event>, Option<D>))
    ensures
        collected.0 == to_persist(effects@),
        collected.1 == state_change(effects@),
{
    let ghost all = effects@;
    let mut effects = effects;
    let mut persisted: Option<Event> = None;
    let mut delta: Option<D> = None;
    // From the last effect to the first: the last of each sort decides.
    while effects.len() > 0
        invariant
            persisted is Some ==> persisted == to_persist(all),
            persisted is None ==> to_persist(all) == to_persist(effects@),
            delta is Some ==> delta == state_change(all),
            delta is None ==> state_change(all) == state_change(effects@),
        decreases effects.len(),
    {
        let ghost before = effects@;
        match effects.pop() {
            Some(Effect::Persist(event)) => {
                assert(before.drop_last() =~= effects@);
                if persisted.is_none() {
                    persisted = Some(event);
                }
            },
            Some(Effect::UpdateCurrentState(d)) => {
                assert(before.drop_last() =~= effects@);
                if delta.is_none() {
                    delta = Some(d);
                }
            },
            None => {},
        }
    }
    (persisted, delta)
}

/// What is to be stored in one transaction: an event, the change of the current state, and the
/// servers that the event is to be sent to.
#[derive(Debug, PartialEq, Eq)]
pub struct Commit<D> {
    pub event: Event,
    pub delta: Option<D>,
    pub destinations: Vec<String>,
}

/// What a local event comes to, once it was applied. A refused event is not stored; a soft-failed
/// message is stored and sent to no one; anything else is sent to the servers of the room as it
/// is after the event.
pub fn commit_local<D>(
    applied: Result<Vec<Effect<D>>, RoomActorError>,
    state_after: &Vec<StateEntry>,
    own_server: &str,
) -> (commit: Result<Commit<D>, RoomActorError>)
    ensures
        match applied {
            Err(e) => commit == Err::<Commit<D>, RoomActorError>(e),
            Ok(effects) => match to_persist(effects@) {
                None => commit == Err::<Commit<D>, RoomActorError>(RoomActorError::NotApplied),
                Some(event) => if event.rejected {
                    commit == Err::<Commit<D>, RoomActorError>(RoomActorError::Rejected)
                } else {
                    &&& commit is Ok
                    &&& commit->Ok_0.event == event
                    &&& commit->Ok_0.delta == state_change(effects@)
                    &&& if event.soft_failed && event.state_key is None {
                        commit->Ok_0.destinations@.len() == 0
                    } else {
                        &&& rising(texts(commit->Ok_0.destinations@))
                        &&& forall|server: Seq<char>| #[trigger]
                            texts(commit->Ok_0.destinations@).contains(server) == is_destination(
                                state_after@,
                                event@,
                                own_server@,
                                server,
                            )
                    }
                },
            },
        },
{
    let effects = match applied {
        Ok(effects) => effects,
        Err(e) => return Err(e),
    };
    let (persisted, delta) = collect_effects(effects);
    let event = match persisted {
        Some(event) => event,
        None => return Err(RoomActorError::NotApplied),
    };
    if event.rejected {
        return Err(RoomActorError::Rejected);
    }
    let destinations = if event.soft_failed && event.state_key.is_none() {
        Vec::new()
    } else {
        outbound_destinations(state_after, &event, own_server)
    };
    Ok(Commit { event, delta, destinations })
}

/// Whether this is what an event from another server comes to, once it was applied: nothing, where
/// it was stored before; else it is stored, whether it was accepted, soft-failed or rejected, and
/// sent to no one.
pub open spec fn is_remote_commit<D>(
    applied: Result<Vec<Effect<D>>, RoomActorError>,
    commit: Result<Option<Commit<D>>, RoomActorError>,
) -> bool {
    match applied {
        Err(e) => commit == Err::<Option<Commit<D>>, RoomActorError>(e),
        Ok(effects) => if effects@.len() == 0 {
            commit matches Ok(None)
        } else {
            match to_persist(effects@) {
                None => commit == Err::<Option<Commit<D>>, RoomActorError>(
                    RoomActorError::NotApplied,
                ),
                Some(event) => {
                    &&& commit matches Ok(Some(_))
                    &&& commit->Ok_0->0.event == event
                    &&& commit->Ok_0->0.delta == state_change(effects@)
                    &&& commit->Ok_0->0.destinations@.len() == 0
                },
            }
        },
    }
}

/// What an event from another server comes to, once it was applied.
pub fn commit_remote<D>(applied: Result<Vec<Effect<D>>, RoomActorError>) -> (commit: Result<
    Option<Commit<D>>,
    RoomActorError,
>)
    ensures
        is_remote_commit(applied, commit),
{
    let effects = match applied {
        Ok(effects) => effects,
        Err(e) => return Err(e),
    };
    if effects.len() == 0 {
        return Ok(None);
    }
    let (persisted, delta) = collect_effects(effects);
    match persisted {
        Some(event) => Ok(Some(Commit { event, delta, destinations: Vec::new() })),
        None => Err(RoomActorError::NotApplied),
    }
}

/// Whether a server is told of the membership event of a remote user that this server lets in or
/// out: it is sent the event as if it were a local one, unless the event came from it.
pub open spec fn is_distributed_to(
    state: Seq<StateEntry>,
    event: EventModel,
    own_server: Seq<char>,
    server: Seq<char>,
) -> bool {
    is_destination(state, event, own_server, server) && !(valid_user_id(event.sender)
        && server_part(event.sender) == server)
}

/// What the membership event of a remote user comes to, once this server, as a resident of the
/// room, has applied it: nothing, where it was stored before; a refused one is not stored; any
/// other is stored and sent to the servers of the room, but for the one that it came from.
pub fn commit_resident<D>(
    applied: Result<Vec<Effect<D>>, RoomActorError>,
    state_after: &Vec<StateEntry>,
    own_server: &str,
) -> (commit: Result<Option<Commit<D>>, RoomActorError>)
    ensures
        match applied {
            Err(e) => commit == Err::<Option<Commit<D>>, RoomActorError>(e),
            Ok(effects) => if effects@.len() == 0 {
                commit matches Ok(None)
            } else {
                match to_persist(effects@) {
                    None => commit == Err::<Option<Commit<D>>, RoomActorError>(
                        RoomActorError::NotApplied,
                    ),
                    Some(event) => if event.rejected {
                        commit == Err::<Option<Commit<D>>, RoomActorError>(
                            RoomActorError::Rejected,
                        )
                    } else {
                        &&& commit matches Ok(Some(_))
                        &&& commit->Ok_0->0.event == event
                        &&& commit->Ok_0->0.delta == state_change(effects@)
                        &&& rising(texts(commit->Ok_0->0.destinations@))
                        &&& forall|server: Seq<char>| #[trigger]
                            texts(commit->Ok_0->0.destinations@).contains(server)
                                == is_distributed_to(
                                state_after@,
                                event@,
                                own_server@,
                                server,
                            )
                    },
                }
            },
        },
{
    let effects = match applied {
        Ok(effects) => effects,
        Err(e) => return Err(e),
    };
    if effects.len() == 0 {
        return Ok(None);
    }
    let (persisted, delta) = collect_effects(effects);
    let event = match persisted {
        Some(event) => event,
        None => return Err(RoomActorError::NotApplied),
    };
    if event.rejected {
        return Err(RoomActorError::Rejected);
    }
    let all = outbound_destinations(state_after, &event, own_server);
    let from = user_server(event.sender.as_str());
    let ghost want = texts(all@);
    let mut destinations: Vec<String> = Vec::new();
    let mut i: usize = 0;
    while i < all.len()
        invariant
            i <= all.len(),
            want == texts(all@),
            rising(want),
            rising(texts(destinations@)),
            match from {
                Some(server) => valid_user_id(event@.sender) && server@ == server_part(
                    event@.sender,
                ),
                None => !valid_user_id(event@.sender),
            },
            forall|server: Seq<char>| #[trigger]
                texts(destinations@).contains(server) == (want.take(i as int).contains(server) && !(
                valid_user_id(event@.sender) && server_part(event@.sender) == server)),
        decreases all.len() - i,
    {
        let ghost before = texts(destinations@);
        let ghost next = all@[i as int]@;
        let is_sender = match &from {
            Some(server) => same_text(server.as_str(), all[i].as_str()),
            None => false,
        };
        if !is_sender {
            destinations.push(all[i].clone());
        }
        proof {
            let now = texts(destinations@);
            assert(want.take(i + 1) =~= want.take(i as int).push(next));
            assert(now =~= if is_sender {
                before
            } else {
                before.push(next)
            });
            if !is_sender {
                assert forall|a: int, b: int| 0 <= a < b < now.len() implies text_le(
                    #[trigger] now[a],
                    #[trigger] now[b],
                ) && now[a] != now[b] by {
                    if b == before.len() {
                        assert(before[a] == now[a]);
                        assert(before.contains(before[a]));
                        let m = choose|m: int| 0 <= m < i && want.take(i as int)[m] == before[a];
                        assert(want[m] == now[a] && want[i as int] == now[b]);
                    } else {
                        assert(before[a] == now[a] && before[b] == now[b]);
                    }
                }
            }
            assert forall|server: Seq<char>| #[trigger] now.contains(server) == (want.take(
                i + 1,
            ).contains(server) && !(valid_user_id(event@.sender) && server_part(event@.sender)
                == server)) by {
                lemma_seq_contains_after_push(want.take(i as int), next, server);
                lemma_seq_contains_after_push(before, next, server);
                assert(before.contains(server) == (want.take(i as int).contains(server) && !(
                valid_user_id(event@.sender) && server_part(event@.sender) == server)));
            }
        }
        i += 1;
    }
    assert(want.take(i as int) =~= want);
    Ok(Some(Commit { event, delta, destinations }))
}

/// Whether this is the room after a commit was stored, or was not: the room after the event, or the
/// room as it was.
pub open spec fn is_adoption<C>(
    room: C,
    next: C,
    stored: Result<(), String>,
    outcome: (C, Result<(), RoomActorError>),
) -> bool {
    match stored {
        Ok(_) => outcome.0 == next && outcome.1 is Ok,
        Err(e) => outcome.0 == room && outcome.1 == Err::<(), RoomActorError>(
            RoomActorError::Storage(e),
        ),
    }
}

/// The room after a commit was stored, or was not.
pub fn adopt<C>(room: C, next: C, stored: Result<(), String>) -> (outcome: (
    C,
    Result<(), RoomActorError>,
))
    ensures
        is_adoption(room, next, stored, outcome),
{
    match stored {
        Ok(_) => (next, Ok(())),
        Err(e) => (room, Err(RoomActorError::Storage(e))),
    }
}

/// What a sender gets back from an actor: the actor's reply, or that the actor is gone, where the
/// command did not reach it or no reply came.
pub fn reply_of<T>(reply: Option<Result<T, RoomActorError>>) -> (outcome: Result<
    T,
    RoomActorError,
>)
    ensures
        match reply {
            Some(reply) => outcome == reply,
            None => outcome == Err::<T, RoomActorError>(RoomActorError::ActorGone),
        },
{
    match reply {
        Some(reply) => reply,
        None => Err(RoomActorError::ActorGone),
    }
}

/// What an actor of a room starts from: the room's heads, unless the store fails or knows no such
/// room.
pub fn bootstrap<H>(heads: Result<Option<H>, String>) -> (room: Result<H, RoomActorError>)
    ensures
        match heads {
            Err(e) => room == Err::<H, RoomActorError>(RoomActorError::Storage(e)),
            Ok(None) => room == Err::<H, RoomActorError>(RoomActorError::UnknownRoom),
            Ok(Some(heads)) => room == Ok::<H, RoomActorError>(heads),
        },
{
    match heads {
        Err(e) => Err(RoomActorError::Storage(e)),
        Ok(None) => Err(RoomActorError::UnknownRoom),
        Ok(Some(heads)) => Ok(heads),
    }
}

/// The actors of the rooms, by room: a handle for each. A room has at most one, and keeps it.
#[derive(Debug, PartialEq, Eq)]
pub struct RoomRegistry<A> {
    pub own_server: String,
    pub actors: Table<A>,
}

impl<A> RoomRegistry<A> {
    /// No room has two entries.
    pub open spec fn wf(self) -> bool {
        self.actors.wf()
    }

    /// A registry without actors.
    pub fn new(own_server: String) -> (registry: RoomRegistry<A>)
        ensures
            registry.wf(),
            registry.own_server == own_server,
            registry.actors@ == Map::<Seq<Seq<char>>, A>::empty(),
    {
        RoomRegistry { own_server, actors: Table::new() }
    }

    /// The actor of a room.
    pub fn lookup(&self, room_id: &str) -> (actor: Option<&A>)
        ensures
            match actor {
                Some(actor) => self.actors@.contains_key(seq![room_id@]) && self.actors@[seq![
                    room_id@,
                ]] == *actor,
                None => !self.actors@.contains_key(seq![room_id@]),
            },
    {
        let mut key: Vec<String> = Vec::new();
        key.push(room_id.to_owned());
        assert(texts(key@) =~= seq![room_id@]);
        self.actors.get(&key)
    }

    /// Registers the actor that was made for a room, unless another was registered in the
    /// meantime; tells whether it was registered, and so is to run.
    pub fn register(&mut self, room_id: &str, fresh: A) -> (runs: bool)
        requires
            old(self).wf(),
        ensures
            final(self).wf(),
            final(self).own_server == old(self).own_server,
            runs == !old(self).actors@.contains_key(seq![room_id@]),
            final(self).actors@ == if runs {
                old(self).actors@.insert(seq![room_id@], fresh)
            } else {
                old(self).actors@
            },
    {
        if self.lookup(room_id).is_some() {
            return false;
        }
        let mut key: Vec<String> = Vec::new();
        key.push(room_id.to_owned());
        assert(texts(key@) =~= seq![room_id@]);
        self.actors.insert(key, fresh);
        true
    }
}

/// No event is ever sent back to this server.
pub proof fn never_sent_to_ourselves(
    state: Seq<StateEntry>,
    event: EventModel,
    own_server: Seq<char>,
)
    ensures
        !is_destination(state, event, own_server, own_server),
{
}

/// A departing user's server is told, though the user is no longer joined.
pub proof fn departure_is_told(
    state: Seq<StateEntry>,
    event: EventModel,
    own_server: Seq<char>,
    server: Seq<char>,
)
    requires
        departs_from(event, server),
        server != own_server,
    ensures
        is_destination(state, event, own_server, server),
{
}

/// An invitation is not broadcast to the server of the one invited, unless another of its users
/// is joined.
pub proof fn invite_is_not_broadcast(
    state: Seq<StateEntry>,
    event: EventModel,
    own_server: Seq<char>,
    server: Seq<char>,
)
    requires
        membership_in(event) == Some(Membership::Invite),
        forall|i: int| 0 <= i < state.len() ==> !joined_from(#[trigger] state[i], server),
    ensures
        !is_destination(state, event, own_server, server),
{
}

/// Distribution duty: whoever is let in or out is told of to every other server of the room, but
/// neither to this server nor back to the one that it came from.
pub proof fn distributed_to_the_others(
    state: Seq<StateEntry>,
    event: EventModel,
    own_server: Seq<char>,
    server: Seq<char>,
    at: int,
)
    requires
        0 <= at < state.len(),
        joined_from(state[at], server),
        valid_user_id(event.sender),
    ensures
        is_distributed_to(state, event, own_server, server) == (server != own_server && server
            != server_part(event.sender)),
{
}

/// A room, with its heads and its current state, and what the store holds of it: its events, the
/// changes of its current state, and what is to be sent where.
pub struct Ledger<C, D> {
    pub room: C,
    pub events: Map<Seq<char>, Event>,
    pub changes: Seq<D>,
    pub outbox: Seq<(Seq<char>, Seq<char>)>,
}

impl<C, D> Ledger<C, D> {
    /// The ledger once a commit was stored and the room after it was adopted.
    pub open spec fn with(self, next: C, commit: Commit<D>) -> Ledger<C, D> {
        let id = commit.event@.event_id;
        Ledger {
            room: next,
            events: self.events.insert(id, commit.event),
            changes: match commit.delta {
                Some(delta) => self.changes.push(delta),
                None => self.changes,
            },
            outbox: self.outbox + texts(commit.destinations@).map_values(|d: Seq<char>| (d, id)),
        }
    }
}

/// What is relied on of the state machine of a room, to which an event was applied while the store
/// could be read: one that is stored already is taken without effects, and no other is; what is to
/// be stored is the event itself; and a rejected event leaves the room, with its heads and its
/// current state, as it was.
pub open spec fn is_application<C, D>(
    ledger: Ledger<C, D>,
    event: EventModel,
    next: C,
    applied: Result<Vec<Effect<D>>, RoomActorError>,
) -> bool {
    match applied {
        Err(_) => !ledger.events.contains_key(event.event_id),
        Ok(effects) => {
            &&& ledger.events.contains_key(event.event_id) == (effects@.len() == 0)
            &&& to_persist(effects@) matches Some(kept) ==> {
                &&& kept@.event_id == event.event_id
                &&& kept.rejected ==> next == ledger.room && state_change(effects@) is None
            }
        },
    }
}

/// How the delivery of an event from another server goes: it was applied, it comes to a commit, and
/// that is stored, or is not.
pub open spec fn delivers<C, D>(
    before: Ledger<C, D>,
    event: EventModel,
    after: Ledger<C, D>,
    outcome: Result<(), RoomActorError>,
) -> bool {
    exists|
        next: C,
        applied: Result<Vec<Effect<D>>, RoomActorError>,
        commit: Result<Option<Commit<D>>, RoomActorError>,
        stored: Result<(), String>,
    | #[trigger]
        is_delivery(before, event, next, applied, commit, stored, after, outcome)
}

/// How the delivery of an event goes, with what came of each step.
pub open spec fn is_delivery<C, D>(
    before: Ledger<C, D>,
    event: EventModel,
    next: C,
    applied: Result<Vec<Effect<D>>, RoomActorError>,
    commit: Result<Option<Commit<D>>, RoomActorError>,
    stored: Result<(), String>,
    after: Ledger<C, D>,
    outcome: Result<(), RoomActorError>,
) -> bool {
    &&& is_application(before, event, next, applied)
    &&& is_remote_commit(applied, commit)
    &&& match commit {
        Err(e) => after == before && outcome == Err::<(), RoomActorError>(e),
        Ok(None) => after == before && outcome is Ok,
        Ok(Some(commit)) => {
            &&& is_adoption(before.room, next, stored, (after.room, outcome))
            &&& after == if stored is Ok {
                before.with(next, commit)
            } else {
                before
            }
        },
    }
}

/// An event from another server that was taken is stored, and taking it again changes nothing: not
/// the events, not the heads or the current state, not what is to be sent. A rejected event is
/// stored as such and leaves the heads and the current state alone. Nothing is sent on.
pub proof fn delivered_again_changes_nothing<C, D>(
    before: Ledger<C, D>,
    event: EventModel,
    once: Ledger<C, D>,
    first: Result<(), RoomActorError>,
    twice: Ledger<C, D>,
    second: Result<(), RoomActorError>,
)
    requires
        delivers(before, event, once, first),
        first is Ok,
        delivers(once, event, twice, second),
    ensures
        once.events.contains_key(event.event_id),
        !before.events.contains_key(event.event_id) && once.events[event.event_id].rejected ==> {
            &&& once.room == before.room
            &&& once.changes == before.changes
        },
        second is Ok,
        twice == once,
        once.outbox == before.outbox,
{
    let (next, applied, commit, stored) = choose|
        next: C,
        applied: Result<Vec<Effect<D>>, RoomActorError>,
        commit: Result<Option<Commit<D>>, RoomActorError>,
        stored: Result<(), String>,
    | #[trigger]
        is_delivery(before, event, next, applied, commit, stored, once, first);
    if commit matches Ok(Some(_)) {
        assert(texts(commit->Ok_0->0.destinations@).len() == 0);
        assert(once.outbox =~= before.outbox);
    }
}

/// What a client is told of an event that did not make it into a room: that there is no such room,
/// that the event is malformed, that it is not allowed, or that this server failed.
pub proof fn refusal_is_told_by_kind(e: RoomActorError, response: Response)
    requires
        call_ensures(room_actor_response, (&e,), response),
    ensures
        response.status == 404 <==> e is UnknownRoom,
        response.status == 400 <==> e is Build,
        response.status == 403 <==> e is Rejected || e is Apply,
        response.status == 500 <==> e is Storage || e is NotApplied || e is ActorGone,
{
}

/// Whether an entry of the state shows a joined user of a server.
pub open spec fn shows_joined(entry: StateEntry, server: Seq<char>) -> bool {
    &&& entry.event_type@ == "m.room.member"@
    &&& entry.event@.event_type == "m.room.member"@
    &&& entry.event@.content.text_at("membership"@) == Some("join"@)
    &&& valid_user_id(entry.state_key@)
    &&& server_part(entry.state_key@) == server
}

/// Whether an event sees a user of a server out: by a `leave` or a `ban`.
pub open spec fn sees_out(event: EventModel, server: Seq<char>) -> bool {
    &&& event.event_type == "m.room.member"@
    &&& event.content.text_at("membership"@) == Some("leave"@) || event.content.text_at(
        "membership"@,
    ) == Some("ban"@)
    &&& event.state_key is Some
    &&& valid_user_id(event.state_key->0)
    &&& server_part(event.state_key->0) == server
}

proof fn memberships_are_named()
    ensures
        forall|name: Seq<char>| #[trigger]
            membership_named(name) == Some(Membership::Join) <==> name == "join"@,
        forall|name: Seq<char>| #[trigger]
            membership_named(name) == Some(Membership::Invite) <==> name == "invite"@,
        forall|name: Seq<char>| #[trigger]
            membership_named(name) == Some(Membership::Leave) <==> name == "leave"@,
        forall|name: Seq<char>| #[trigger]
            membership_named(name) == Some(Membership::Ban) <==> name == "ban"@,
        forall|name: Seq<char>| #[trigger]
            membership_named(name) == Some(Membership::Knock) <==> name == "knock"@,
{
    reveal_strlit("join");
    reveal_strlit("invite");
    reveal_strlit("leave");
    reveal_strlit("ban");
    reveal_strlit("knock");
    assert("join"@.len() == 4 && "invite"@.len() == 6 && "ban"@.len() == 3);
    assert("leave"@.len() == 5 && "knock"@.len() == 5 && "leave"@[0] != "knock"@[0]);
}

/// A membership is read by its name, and from member events alone.
pub proof fn membership_is_by_name(event: Event, membership: Option<Membership>)
    requires
        call_ensures(event_membership, (&event,), membership),
    ensures
        ({
            let named = event@.content.text_at("membership"@);
            let member = event@.event_type == "m.room.member"@;
            &&& membership == Some(Membership::Join) <==> member && named == Some("join"@)
            &&& membership == Some(Membership::Invite) <==> member && named == Some("invite"@)
            &&& membership == Some(Membership::Leave) <==> member && named == Some("leave"@)
            &&& membership == Some(Membership::Ban) <==> member && named == Some("ban"@)
            &&& membership == Some(Membership::Knock) <==> member && named == Some("knock"@)
        }),
{
    memberships_are_named();
}

proof fn destination_is_shown(
    state: Seq<StateEntry>,
    event: EventModel,
    own_server: Seq<char>,
    server: Seq<char>,
)
    ensures
        is_destination(state, event, own_server, server) <==> server != own_server && ((exists|
            i: int,
        |
            0 <= i < state.len() && shows_joined(#[trigger] state[i], server)) || sees_out(
            event,
            server,
        )),
{
    memberships_are_named();
    if exists|i: int| 0 <= i < state.len() && shows_joined(#[trigger] state[i], server) {
        let i = choose|i: int| 0 <= i < state.len() && shows_joined(#[trigger] state[i], server);
        assert(joined_from(state[i], server));
    }
    if exists|i: int| 0 <= i < state.len() && joined_from(#[trigger] state[i], server) {
        let i = choose|i: int| 0 <= i < state.len() && joined_from(#[trigger] state[i], server);
        assert(shows_joined(state[i], server));
    }
}

/// An event goes to every other server that has a joined user in the room, and to the server of a
/// user whom it sees out; to no other, never to this one, and to none twice.
pub proof fn sent_to_every_server_of_the_room(
    state: Vec<StateEntry>,
    event: Event,
    own_server: &str,
    dests: Vec<String>,
    server: Seq<char>,
)
    requires
        call_ensures(outbound_destinations, (&state, &event, own_server), dests),
    ensures
        texts(dests@).contains(server) <==> server != own_server@ && ((exists|i: int|
            0 <= i < state@.len() && shows_joined(#[trigger] state@[i], server)) || sees_out(
            event@,
            server,
        )),
        forall|i: int, j: int|
            0 <= i < j < dests@.len() ==> (#[trigger] dests@[i])@ != (#[trigger] dests@[j])@,
{
    destination_is_shown(state@, event@, own_server@, server);
    assert forall|i: int, j: int| 0 <= i < j < dests@.len() implies (#[trigger] dests@[i])@ != (
    #[trigger] dests@[j])@ by {
        assert(texts(dests@)[i] != texts(dests@)[j]);
    }
}

/// Whether the last event to store among some effects is the one at `i`.
pub open spec fn last_to_store<D>(effects: Seq<Effect<D>>, i: int) -> bool {
    &&& 0 <= i < effects.len()
    &&& effects[i] is Persist
    &&& forall|k: int| i < k < effects.len() ==> !(#[trigger] effects[k] is Persist)
}

/// Whether the last change of the state among some effects is the one at `i`.
pub open spec fn last_change<D>(effects: Seq<Effect<D>>, i: int) -> bool {
    &&& 0 <= i < effects.len()
    &&& effects[i] is UpdateCurrentState
    &&& forall|k: int| i < k < effects.len() ==> !(#[trigger] effects[k] is UpdateCurrentState)
}

/// What is stored is what the effects name last: the event and the change of the state.
pub proof fn last_effects_decide<D>(effects: Seq<Effect<D>>, i: int)
    ensures
        last_to_store(effects, i) ==> to_persist(effects) == Some(effects[i]->Persist_0),
        last_change(effects, i) ==> state_change(effects) == Some(
            effects[i]->UpdateCurrentState_0,
        ),
        (forall|k: int| 0 <= k < effects.len() ==> !(#[trigger] effects[k] is Persist))
            ==> to_persist(effects) is None,
        (forall|k: int| 0 <= k < effects.len() ==> !(#[trigger] effects[k] is UpdateCurrentState))
            ==> state_change(effects) is None,
    decreases effects.len(),
{
    if effects.len() > 0 {
        let fewer = effects.drop_last();
        let last = effects.len() - 1;
        last_effects_decide(fewer, i);
        assert forall|k: int| 0 <= k < fewer.len() implies fewer[k] == #[trigger] effects[k] by {}
        if last_to_store(effects, i) && i < last {
            assert(!(effects[last] is Persist));
            assert forall|k: int| i < k < fewer.len() implies !(#[trigger] fewer[k] is Persist) by {
                assert(!(effects[k] is Persist));
            }
            assert(last_to_store(fewer, i));
        }
        if last_change(effects, i) && i < last {
            assert(!(effects[last] is UpdateCurrentState));
            assert forall|k: int| i < k < fewer.len() implies !(#[trigger] fewer[k]
                is UpdateCurrentState) by {
                assert(!(effects[k] is UpdateCurrentState));
            }
            assert(last_change(fewer, i));
        }
        if forall|k: int| 0 <= k < effects.len() ==> !(#[trigger] effects[k] is Persist) {
            assert(!(effects[last] is Persist));
            assert forall|k: int| 0 <= k < fewer.len() implies !(#[trigger] fewer[k] is Persist) by {
                assert(!(effects[k] is Persist));
            }
        }
        if forall|k: int| 0 <= k < effects.len() ==> !(#[trigger] effects[k] is UpdateCurrentState) {
            assert(!(effects[last] is UpdateCurrentState));
            assert forall|k: int| 0 <= k < fewer.len() implies !(#[trigger] fewer[k]
                is UpdateCurrentState) by {
                assert(!(effects[k] is UpdateCurrentState));
            }
        }
    }
}

/// A local event that the room's rules refuse is not stored; any other is, as applying it gave it
/// back, and is sent to every other server of the room as it is then. Only a soft-failed message
/// stays here.
pub proof fn local_event_is_stored_and_sent<D>(
    effects: Vec<Effect<D>>,
    state_after: Vec<StateEntry>,
    own_server: &str,
    commit: Result<Commit<D>, RoomActorError>,
    at: int,
    server: Seq<char>,
)
    requires
        call_ensures(commit_local::<D>, (Ok(effects), &state_after, own_server), commit),
        last_to_store(effects@, at),
    ensures
        ({
            let event = effects@[at]->Persist_0;
            &&& commit is Ok <==> !event.rejected
            &&& commit is Err ==> commit->Err_0 is Rejected
            &&& commit matches Ok(commit) ==> {
                &&& commit.event == event
                &&& event.soft_failed && event.state_key is None ==> commit.destinations@.len() == 0
                &&& !(event.soft_failed && event.state_key is None) ==> (texts(
                    commit.destinations@,
                ).contains(server) <==> server != own_server@ && ((exists|i: int|
                    0 <= i < state_after@.len() && shows_joined(#[trigger] state_after@[i], server))
                    || sees_out(event@, server)))
            }
        }),
{
    last_effects_decide(effects@, at);
    destination_is_shown(state_after@, effects@[at]->Persist_0@, own_server@, server);
}

/// A change of the room's state that an event brings is stored with it.
pub proof fn change_is_stored_with_its_event<D>(
    effects: Vec<Effect<D>>,
    state_after: Vec<StateEntry>,
    own_server: &str,
    local: Result<Commit<D>, RoomActorError>,
    remote: Result<Option<Commit<D>>, RoomActorError>,
    resident: Result<Option<Commit<D>>, RoomActorError>,
    change: int,
)
    requires
        call_ensures(commit_local::<D>, (Ok(effects), &state_after, own_server), local),
        call_ensures(commit_remote::<D>, (Ok(effects),), remote),
        call_ensures(commit_resident::<D>, (Ok(effects), &state_after, own_server), resident),
        last_change(effects@, change),
    ensures
        local matches Ok(commit) ==> commit.delta == Some(
            effects@[change]->UpdateCurrentState_0,
        ),
        remote matches Ok(Some(commit)) ==> commit.delta == Some(
            effects@[change]->UpdateCurrentState_0,
        ),
        resident matches Ok(Some(commit)) ==> commit.delta == Some(
            effects@[change]->UpdateCurrentState_0,
        ),
{
    last_effects_decide(effects@, change);
}

/// An event from another server is stored whatever its verdict, rejected or not, and sent to no one;
/// one that was stored before comes to nothing.
pub proof fn remote_event_is_stored<D>(
    effects: Vec<Effect<D>>,
    commit: Result<Option<Commit<D>>, RoomActorError>,
    at: int,
)
    requires
        call_ensures(commit_remote::<D>, (Ok(effects),), commit),
    ensures
        effects@.len() == 0 ==> commit == Ok::<Option<Commit<D>>, RoomActorError>(None),
        last_to_store(effects@, at) ==> commit is Ok && commit->Ok_0 is Some
            && commit->Ok_0->0.event == effects@[at]->Persist_0
            && commit->Ok_0->0.destinations@.len() == 0,
{
    last_effects_decide(effects@, at);
}

/// A membership event of a remote user that this server lets in or out is stored unless it is
/// refused, and sent to every other server of the room but the one that it came from.
pub proof fn resident_tells_the_others<D>(
    effects: Vec<Effect<D>>,
    state_after: Vec<StateEntry>,
    own_server: &str,
    commit: Result<Option<Commit<D>>, RoomActorError>,
    at: int,
    server: Seq<char>,
)
    requires
        call_ensures(commit_resident::<D>, (Ok(effects), &state_after, own_server), commit),
        last_to_store(effects@, at),
    ensures
        ({
            let event = effects@[at]->Persist_0;
            &&& commit is Ok <==> !event.rejected
            &&& commit is Err ==> commit->Err_0 is Rejected
            &&& commit matches Ok(commit) ==> {
                &&& commit is Some
                &&& commit->0.event == event
                &&& texts(commit->0.destinations@).contains(server) <==> server != own_server@ && ((
                exists|i: int|
                    0 <= i < state_after@.len() && shows_joined(#[trigger] state_after@[i], server))
                    || sees_out(event@, server)) && !(valid_user_id(event@.sender) && server_part(
                    event@.sender,
                ) == server)
            }
        }),
{
    last_effects_decide(effects@, at);
    destination_is_shown(state_after@, effects@[at]->Persist_0@, own_server@, server);
}

/// A failure to apply is passed on, and nothing is stored.
pub proof fn failure_stores_nothing<D>(
    e: RoomActorError,
    state_after: Vec<StateEntry>,
    own_server: &str,
    local: Result<Commit<D>, RoomActorError>,
    remote: Result<Option<Commit<D>>, RoomActorError>,
    resident: Result<Option<Commit<D>>, RoomActorError>,
)
    requires
        call_ensures(commit_local::<D>, (Err(e), &state_after, own_server), local),
        call_ensures(commit_remote::<D>, (Err(e),), remote),
        call_ensures(commit_resident::<D>, (Err(e), &state_after, own_server), resident),
    ensures
        local == Err::<Commit<D>, RoomActorError>(e),
        remote == Err::<Option<Commit<D>>, RoomActorError>(e),
        resident == Err::<Option<Commit<D>>, RoomActorError>(e),
{
}

/// A room changes only with the store: the room after an event is adopted exactly where the event
/// was stored; else it stays as it was.
pub proof fn room_changes_with_the_store<C>(
    room: C,
    next: C,
    stored: Result<(), String>,
    outcome: (C, Result<(), RoomActorError>),
)
    requires
        call_ensures(adopt::<C>, (room, next, stored), outcome),
    ensures
        stored is Ok ==> outcome.0 == next && outcome.1 is Ok,
        stored is Err ==> outcome.0 == room && outcome.1 is Err,
{
}

/// A reply is passed on as it is; where none came the actor is gone.
pub proof fn reply_is_passed_on<T>(
    reply: Option<Result<T, RoomActorError>>,
    outcome: Result<T, RoomActorError>,
)
    requires
        call_ensures(reply_of::<T>, (reply,), outcome),
    ensures
        reply matches Some(reply) ==> outcome == reply,
        reply is None ==> outcome is Err && outcome->Err_0 is ActorGone,
{
}

/// An actor starts from the heads of its room; without the room it does not start.
pub proof fn actor_starts_from_the_heads<H>(
    heads: Result<Option<H>, String>,
    room: Result<H, RoomActorError>,
)
    requires
        call_ensures(bootstrap::<H>, (heads,), room),
    ensures
        room is Ok <==> heads is Ok && heads->Ok_0 is Some,
        room matches Ok(room) ==> heads->Ok_0 == Some(room),
        heads == Ok::<Option<H>, String>(None) ==> room->Err_0 is UnknownRoom,
        heads matches Err(e) ==> room == Err::<H, RoomActorError>(RoomActorError::Storage(e)),
{
}

/// A room has one actor, and keeps it: the first that is registered runs, no later one does, and the
/// actors of other rooms stay.
pub proof fn first_actor_stays<A>(
    registry: &mut RoomRegistry<A>,
    room_id: &str,
    fresh: A,
    runs: bool,
    other: Seq<char>,
)
    requires
        call_ensures(RoomRegistry::<A>::register, (registry, room_id, fresh), runs),
    ensures
        runs <==> !old(registry).actors@.contains_key(seq![room_id@]),
        final(registry).actors@.contains_key(seq![room_id@]),
        runs ==> final(registry).actors@[seq![room_id@]] == fresh,
        !runs ==> final(registry).actors@ == old(registry).actors@,
        other != room_id@ ==> {
            &&& final(registry).actors@.contains_key(seq![other]) == old(
                registry
            ).actors@.contains_key(seq![other])
            &&& final(registry).actors@[seq![other]] == old(registry).actors@[seq![other]]
        },
        final(registry).own_server == old(registry).own_server,
{
    assert(seq![other][0] == other);
    assert(seq![room_id@][0] == room_id@);
}

} // verus!
