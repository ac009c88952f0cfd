//! An event store in memory: the log of events, the current state of each room, and who is a
//! member of what. Nothing survives a restart.

use vstd::prelude::*;

use crate::event::{copy_opt, opt_text};
use crate::ids::{
    is_event_id, is_room_id, is_room_version, is_user_id, valid_event_id, valid_room_id,
    valid_room_version, valid_user_id,
};
use crate::json::{Json, JsonModel};
use crate::table::{key_of, Table};
use crate::text::{decimal, decimal_text, same_text, texts};
use crate::textset::TextSet;

verus! {

/// An event as the store keeps it.
#[derive(Debug, PartialEq, Eq)]
pub struct StoredEvent {
    pub event_id: String,
    pub room_id: String,
    pub event_type: String,
    pub state_key: Option<String>,
    pub sender: String,
    pub origin_server_ts: u64,
    /// The whole event.
    pub json: Json,
}

/// What a stored event is.
pub struct StoredModel {
    pub event_id: Seq<char>,
    pub room_id: Seq<char>,
    pub event_type: Seq<char>,
    pub state_key: Option<Seq<char>>,
    pub sender: Seq<char>,
    pub origin_server_ts: u64,
    pub json: JsonModel,
}

impl View for StoredEvent {
    type V = StoredModel;

    open spec fn view(&self) -> StoredModel {
        StoredModel {
            event_id: self.event_id@,
            room_id: self.room_id@,
            event_type: self.event_type@,
            state_key: opt_text(self.state_key),
            sender: self.sender@,
            origin_server_ts: self.origin_server_ts,
            json: self.json.model(),
        }
    }
}

impl StoredModel {
    /// The membership that a member event gives.
    pub open spec fn membership(self) -> Option<Seq<char>> {
        self.json.text_at2("content"@, "membership"@)
    }

    /// The user whose membership a member event is about.
    pub open spec fn member(self) -> Option<Seq<char>> {
        match self.state_key {
            Some(key) if self.event_type == "m.room.member"@ && valid_user_id(key) => Some(key),
            _ => None,
        }
    }
}

impl StoredEvent {
    /// A copy of the event.
    pub fn copy(&self) -> (twin: StoredEvent)
        ensures
            twin@ == self@,
    {
        StoredEvent {
            event_id: self.event_id.clone(),
            room_id: self.room_id.clone(),
            event_type: self.event_type.clone(),
            state_key: copy_opt(&self.state_key),
            sender: self.sender.clone(),
            origin_server_ts: self.origin_server_ts,
            json: self.json.copy(),
        }
    }
}

/// Stored events as they are.
pub open spec fn stored_models(events: Seq<StoredEvent>) -> Seq<StoredModel> {
    events.map_values(|e: StoredEvent| e@)
}

/// Logged events as they are.
pub open spec fn log_models(events: Seq<(u64, StoredEvent)>) -> Seq<(u64, StoredModel)> {
    events.map_values(|e: (u64, StoredEvent)| (e.0, e.1@))
}

/// What a store is.
#[verifier::ext_equal]
pub struct StoreModel {
    /// The version of each known room.
    pub rooms: Map<Seq<Seq<char>>, Seq<char>>,
    /// All events, each with its position, in the order in which they came.
    pub events: Seq<(u64, StoredModel)>,
    /// The position of the next event.
    pub next_pos: u64,
    /// The current state: an event for each room, type and state key.
    pub state: Map<Seq<Seq<char>>, StoredModel>,
    /// The membership of each user in each room.
    pub memberships: Map<Seq<Seq<char>>, Seq<char>>,
    /// The position that subscribers see.
    pub latest: u64,
}

/// The key of a state event.
pub open spec fn state_at(room: Seq<char>, event_type: Seq<char>, state_key: Seq<char>) -> Seq<
    Seq<char>,
> {
    seq![room, event_type, state_key]
}

/// The key of a membership.
pub open spec fn member_at(user: Seq<char>, room: Seq<char>) -> Seq<Seq<char>> {
    seq![user, room]
}

impl StoreModel {
    /// A store of nothing.
    pub open spec fn empty() -> StoreModel {
        StoreModel {
            rooms: Map::empty(),
            events: Seq::empty(),
            next_pos: 1,
            state: Map::empty(),
            memberships: Map::empty(),
            latest: 0,
        }
    }

    /// The memberships after a member event: the membership that it gives, or none where it gives
    /// none.
    pub open spec fn membership_after(self, event: StoredModel) -> Map<Seq<Seq<char>>, Seq<char>> {
        match event.member() {
            None => self.memberships,
            Some(user) => match event.membership() {
                Some(membership) => self.memberships.insert(
                    member_at(user, event.room_id),
                    membership,
                ),
                None => self.memberships.remove(member_at(user, event.room_id)),
            },
        }
    }

    /// The current state after a state event.
    pub open spec fn state_after(self, event: StoredModel) -> Map<Seq<Seq<char>>, StoredModel> {
        match event.state_key {
            Some(key) => self.state.insert(state_at(event.room_id, event.event_type, key), event),
            None => self.state,
        }
    }

    /// The store after one more event, with or without a trace in the memberships and in the
    /// current state.
    pub open spec fn with_event(
        self,
        event: StoredModel,
        track_membership: bool,
        update_current_state: bool,
    ) -> StoreModel {
        StoreModel {
            rooms: self.rooms,
            events: self.events.push((self.next_pos, event)),
            next_pos: (self.next_pos + 1) as u64,
            state: if update_current_state {
                self.state_after(event)
            } else {
                self.state
            },
            memberships: if track_membership {
                self.membership_after(event)
            } else {
                self.memberships
            },
            latest: if self.latest < self.next_pos {
                self.next_pos
            } else {
                self.latest
            },
        }
    }

    /// The store after a list of events.
    pub open spec fn with_events(self, events: Seq<StoredModel>) -> StoreModel
        decreases events.len(),
    {
        if events.len() == 0 {
            self
        } else {
            self.with_events(events.drop_last()).with_event(events.last(), true, true)
        }
    }

    /// The position of every logged event is before the next one, and the positions rise.
    pub open spec fn ordered(self) -> bool {
        &&& forall|i: int, j: int|
            0 <= i < j < self.events.len() ==> (#[trigger] self.events[i]).0 < (
            #[trigger] self.events[j]).0
        &&& forall|i: int| 0 <= i < self.events.len() ==> (#[trigger] self.events[i]).0 < self.next_pos
        &&& self.latest + 1 == self.next_pos
    }

    /// The events of a room, in the order in which they came.
    pub open spec fn room_log(self, room: Seq<char>) -> Seq<StoredModel> {
        self.events.filter(|e: (u64, StoredModel)| e.1.room_id == room).map_values(
            |e: (u64, StoredModel)| e.1,
        )
    }

    /// The events with one of some identifiers, in the order in which they came.
    pub open spec fn events_named(self, ids: Seq<Seq<char>>) -> Seq<StoredModel> {
        self.events.filter(|e: (u64, StoredModel)| ids.contains(e.1.event_id)).map_values(
            |e: (u64, StoredModel)| e.1,
        )
    }

    /// The events after a position.
    pub open spec fn log_after(self, pos: u64) -> Seq<(u64, StoredModel)> {
        self.events.filter(|e: (u64, StoredModel)| e.0 > pos)
    }

    /// The rooms that any event is of.
    pub open spec fn seen_rooms(self) -> Set<Seq<char>> {
        self.events.map_values(|e: (u64, StoredModel)| e.1.room_id).to_set()
    }
}

/// The store.
#[derive(Debug, PartialEq, Eq)]
pub struct InMemoryStore {
    rooms: Table<String>,
    events: Vec<(u64, StoredEvent)>,
    next_pos: u64,
    state: Table<StoredEvent>,
    memberships: Table<String>,
    latest: u64,
}

impl View for InMemoryStore {
    type V = StoreModel;

    closed spec fn view(&self) -> StoreModel {
        StoreModel {
            rooms: self.rooms@.map_values(|v: String| v@),
            events: log_models(self.events@),
            next_pos: self.next_pos,
            state: self.state@.map_values(|e: StoredEvent| e@),
            memberships: self.memberships@.map_values(|m: String| m@),
            latest: self.latest,
        }
    }
}

fn key2(a: &str, b: &str) -> (key: Vec<String>)
    ensures
        texts(key@) == seq![a@, b@],
{
    let mut key: Vec<String> = Vec::new();
    key.push(a.to_owned());
    key.push(b.to_owned());
    assert(texts(key@) =~= seq![a@, b@]);
    key
}

fn key3(a: &str, b: &str, c: &str) -> (key: Vec<String>)
    ensures
        texts(key@) == seq![a@, b@, c@],
{
    let mut key: Vec<String> = Vec::new();
    key.push(a.to_owned());
    key.push(b.to_owned());
    key.push(c.to_owned());
    assert(texts(key@) =~= seq![a@, b@, c@]);
    key
}

fn key1(a: &str) -> (key: Vec<String>)
    ensures
        texts(key@) == seq![a@],
{
    let mut key: Vec<String> = Vec::new();
    key.push(a.to_owned());
    assert(texts(key@) =~= seq![a@]);
    key
}

impl InMemoryStore {
    /// The store's parts fit together.
    pub closed spec fn wf(self) -> bool {
        &&& self.rooms.wf()
        &&& self.state.wf()
        &&& self.memberships.wf()
        &&& self@.ordered()
        &&& forall|key: Seq<Seq<char>>| #[trigger] self.rooms@.contains_key(key) ==> key.len() == 1
        &&& forall|key: Seq<Seq<char>>| #[trigger] self.state@.contains_key(key) ==> key.len() == 3
        &&& forall|key: Seq<Seq<char>>|
            #[trigger] self.memberships@.contains_key(key) ==> key.len() == 2
    }

    /// Positions of logged events rise, below the next position.
    pub proof fn is_ordered(self)
        requires
            self.wf(),
        ensures
            self@.ordered(),
    {
    }

    /// A store of nothing.
    pub fn new() -> (store: InMemoryStore)
        ensures
            store.wf(),
            store@ == StoreModel::empty(),
    {
        let store = InMemoryStore {
            rooms: Table::new(),
            events: Vec::new(),
            next_pos: 1,
            state: Table::new(),
            memberships: Table::new(),
            latest: 0,
        };
        assert(store.rooms@.map_values(|v: String| v@) =~= Map::empty());
        assert(store.state@.map_values(|e: StoredEvent| e@) =~= Map::empty());
        assert(store.memberships@.map_values(|m: String| m@) =~= Map::empty());
        assert(log_models(store.events@) =~= Seq::empty());
        store
    }

    /// Makes a room known, with its version.
    pub fn add_room(&mut self, room_id: &str, version: &str)
        requires
            old(self).wf(),
        ensures
            final(self).wf(),
            final(self)@ == (StoreModel {
                rooms: old(self)@.rooms.insert(seq![room_id@], version@),
                ..old(self)@
            }),
    {
        let ghost before = *self;
        self.rooms.insert(key1(room_id), version.to_owned());
        assert(self.rooms@.map_values(|v: String| v@) =~= before.rooms@.map_values(
            |v: String| v@,
        ).insert(seq![room_id@], version@));
    }

    /// Makes a user a joined member of a room, without an event.
    pub fn join_user(&mut self, user_id: &str, room_id: &str)
        requires
            old(self).wf(),
        ensures
            final(self).wf(),
            final(self)@ == (StoreModel {
                memberships: old(self)@.memberships.insert(member_at(user_id@, room_id@), "join"@),
                ..old(self)@
            }),
    {
        self.set_membership(user_id, room_id, "join");
    }

    /// Makes a user an invited member of a room, without an event.
    pub fn invite_user(&mut self, user_id: &str, room_id: &str)
        requires
            old(self).wf(),
        ensures
            final(self).wf(),
            final(self)@ == (StoreModel {
                memberships: old(self)@.memberships.insert(member_at(user_id@, room_id@), "invite"@),
                ..old(self)@
            }),
    {
        self.set_membership(user_id, room_id, "invite");
    }

    /// Sets the membership of a user in a room, without an event.
    pub fn set_membership(&mut self, user_id: &str, room_id: &str, membership: &str)
        requires
            old(self).wf(),
        ensures
            final(self).wf(),
            final(self)@ == (StoreModel {
                memberships: old(self)@.memberships.insert(
                    member_at(user_id@, room_id@),
                    membership@,
                ),
                ..old(self)@
            }),
    {
        let ghost before = *self;
        self.memberships.insert(key2(user_id, room_id), membership.to_owned());
        assert(self.memberships@.map_values(|m: String| m@) =~= before.memberships@.map_values(
            |m: String| m@,
        ).insert(member_at(user_id@, room_id@), membership@));
    }

    /// Takes a membership out of the store.
    fn drop_membership(&mut self, user_id: &str, room_id: &str)
        requires
            old(self).wf(),
        ensures
            final(self).wf(),
            final(self)@ == (StoreModel {
                memberships: old(self)@.memberships.remove(member_at(user_id@, room_id@)),
                ..old(self)@
            }),
    {
        let ghost before = *self;
        self.memberships.remove(&key2(user_id, room_id));
        assert(self.memberships@.map_values(|m: String| m@) =~= before.memberships@.map_values(
            |m: String| m@,
        ).remove(member_at(user_id@, room_id@)));
    }

    /// Applies a member event to the memberships.
    fn track_membership_from_event(&mut self, event: &StoredEvent)
        requires
            old(self).wf(),
        ensures
            final(self).wf(),
            final(self)@ == (StoreModel {
                memberships: old(self)@.membership_after(event@),
                ..old(self)@
            }),
    {
        if !same_text(event.event_type.as_str(), "m.room.member") {
            return;
        }
        match &event.state_key {
            None => {},
            Some(user) => {
                if is_user_id(user.as_str()) {
                    match event.json.str_at2("content", "membership") {
                        Some(membership) => self.set_membership(
                            user.as_str(),
                            event.room_id.as_str(),
                            membership.as_str(),
                        ),
                        None => self.drop_membership(user.as_str(), event.room_id.as_str()),
                    }
                }
            },
        }
    }

    /// Puts an event into the current state, if it is a state event.
    fn update_state_from_event(&mut self, event: &StoredEvent)
        requires
            old(self).wf(),
        ensures
            final(self).wf(),
            final(self)@ == (StoreModel { state: old(self)@.state_after(event@), ..old(self)@ }),
    {
        match &event.state_key {
            None => {},
            Some(state_key) => {
                let ghost before = *self;
                let key = key3(
                    event.room_id.as_str(),
                    event.event_type.as_str(),
                    state_key.as_str(),
                );
                self.state.insert(key, event.copy());
                assert(self.state@.map_values(|e: StoredEvent| e@) =~= before.state@.map_values(
                    |e: StoredEvent| e@,
                ).insert(state_at(event@.room_id, event@.event_type, state_key@), event@));
            },
        }
    }

    /// The way of every event into the store: it gets a position, goes into the current state and
    /// the memberships as asked, and is logged; subscribers see its position.
    fn insert_event_with(
        &mut self,
        event: StoredEvent,
        track_membership: bool,
        update_current_state: bool,
    )
        requires
            old(self).wf(),
            old(self)@.next_pos < u64::MAX,
        ensures
            final(self).wf(),
            final(self)@ == old(self)@.with_event(event@, track_membership, update_current_state),
    {
        if update_current_state {
            self.update_state_from_event(&event);
        }
        if track_membership {
            self.track_membership_from_event(&event);
        }
        let ghost before = *self;
        let pos = self.next_pos;
        self.next_pos = pos + 1;
        self.events.push((pos, event));
        if self.latest < pos {
            self.latest = pos;
        }
        assert(log_models(self.events@) =~= log_models(before.events@).push((pos, event@)));
        assert(self@.ordered()) by {
            assert forall|i: int, j: int| 0 <= i < j < self@.events.len() implies (
            #[trigger] self@.events[i]).0 < (#[trigger] self@.events[j]).0 by {
                assert(self@.events[i] == before@.events[i]);
                if j < before@.events.len() {
                    assert(self@.events[j] == before@.events[j]);
                }
            }
            assert forall|i: int| 0 <= i < self@.events.len() implies (
            #[trigger] self@.events[i]).0 < self@.next_pos by {
                if i < before@.events.len() {
                    assert(self@.events[i] == before@.events[i]);
                }
            }
        }
    }

    /// Logs an event and puts it into the current state, without a trace in the memberships.
    pub fn add_event(&mut self, event: StoredEvent)
        requires
            old(self).wf(),
            old(self)@.next_pos < u64::MAX,
        ensures
            final(self).wf(),
            final(self)@ == old(self)@.with_event(event@, false, true),
    {
        self.insert_event_with(event, false, true);
    }

    /// Takes an entry out of the current state. The log keeps the event.
    pub fn remove_state(&mut self, room_id: &str, event_type: &str, state_key: &str)
        requires
            old(self).wf(),
        ensures
            final(self).wf(),
            final(self)@ == (StoreModel {
                state: old(self)@.state.remove(state_at(room_id@, event_type@, state_key@)),
                ..old(self)@
            }),
    {
        let ghost before = *self;
        self.state.remove(&key3(room_id, event_type, state_key));
        assert(self.state@.map_values(|e: StoredEvent| e@) =~= before.state@.map_values(
            |e: StoredEvent| e@,
        ).remove(state_at(room_id@, event_type@, state_key@)));
    }

    /// Stores an event that is given as JSON; one that lacks a field that it must have, or has one
    /// that is malformed, is dropped.
    pub fn insert_event_from_json(&mut self, value: &Json) -> (event_id: Option<String>)
        requires
            old(self).wf(),
            old(self)@.next_pos < u64::MAX,
        ensures
            final(self).wf(),
            match event_in(value.model()) {
                Some(event) => final(self)@ == old(self)@.with_event(event, true, true) && opt_text(
                    event_id,
                ) == Some(event.event_id),
                None => final(self)@ == old(self)@ && event_id is None,
            },
    {
        match event_from_value(value) {
            Some(event) => {
                let event_id = event.event_id.clone();
                self.insert_event_with(event, true, true);
                Some(event_id)
            },
            None => None,
        }
    }

    /// Stores an event as the newest.
    pub fn persist_event(&mut self, event: &StoredEvent)
        requires
            old(self).wf(),
            old(self)@.next_pos < u64::MAX,
        ensures
            final(self).wf(),
            final(self)@ == old(self)@.with_event(event@, true, true),
    {
        self.insert_event_with(event.copy(), true, true);
    }

    /// Stores an event of the past: it feeds history alone.
    pub fn persist_historical_event(&mut self, event: &StoredEvent)
        requires
            old(self).wf(),
            old(self)@.next_pos < u64::MAX,
        ensures
            final(self).wf(),
            final(self)@ == old(self)@.with_event(event@, false, false),
    {
        self.insert_event_with(event.copy(), false, false);
    }
}

/// What can go wrong in a store.
#[derive(Debug, PartialEq, Eq)]
pub enum StorageError {
    InvalidInput(&'static str),
}

/// Which way a room's events are read.
#[derive(Debug, Clone, Copy, PartialEq, Eq, Structural)]
pub enum Direction {
    Forward,
    Backward,
}

/// The version that a create event gives its room; `12` where it names none.
pub open spec fn created_version(create: StoredModel) -> Seq<char> {
    match create.json.text_at2("content"@, "room_version"@) {
        Some(version) => version,
        None => "12"@,
    }
}

/// No more than the first `n` of a sequence.
pub open spec fn first_of<A>(s: Seq<A>, n: int) -> Seq<A> {
    if n < s.len() {
        s.take(n)
    } else {
        s
    }
}

proof fn filter_one_more<A>(s: Seq<A>, pred: spec_fn(A) -> bool, i: int)
    requires
        0 <= i < s.len(),
    ensures
        s.take(i + 1).filter(pred) == if pred(s[i]) {
            s.take(i).filter(pred).push(s[i])
        } else {
            s.take(i).filter(pred)
        },
{
    reveal(Seq::filter);
    assert(s.take(i + 1).drop_last() =~= s.take(i));
}

proof fn filter_none<A>(s: Seq<A>, pred: spec_fn(A) -> bool)
    ensures
        s.take(0).filter(pred) == Seq::<A>::empty(),
{
    reveal(Seq::filter);
    assert(s.take(0) =~= Seq::empty());
}

proof fn filter_prefix<A>(s: Seq<A>, pred: spec_fn(A) -> bool, i: int)
    requires
        0 <= i <= s.len(),
    ensures
        s.take(i).filter(pred).len() <= s.filter(pred).len(),
        s.filter(pred).take(s.take(i).filter(pred).len() as int) == s.take(i).filter(pred),
    decreases s.len() - i,
{
    if i < s.len() {
        filter_prefix(s, pred, i + 1);
        filter_one_more(s, pred, i);
        let shorter = s.take(i).filter(pred);
        let longer = s.take(i + 1).filter(pred);
        let whole = s.filter(pred);
        assert(whole.take(shorter.len() as int) =~= whole.take(longer.len() as int).take(
            shorter.len() as int,
        ));
        assert(longer.take(shorter.len() as int) =~= shorter);
    } else {
        assert(s.take(i) =~= s);
        assert(s.filter(pred).take(s.filter(pred).len() as int) =~= s.filter(pred));
    }
}

impl InMemoryStore {
    /// Registers a room by its create event, and stores that event and those that follow it.
    pub fn create_room(
        &mut self,
        create_event: &StoredEvent,
        initial_events: &Vec<StoredEvent>,
    ) -> (created: Result<(), StorageError>)
        requires
            old(self).wf(),
            old(self)@.next_pos + initial_events@.len() < u64::MAX,
        ensures
            final(self).wf(),
            if create_event@.event_type != "m.room.create"@ {
                &&& final(self)@ == old(self)@
                &&& created matches Err(StorageError::InvalidInput(m)) && m@
                    == "create_event must be type m.room.create"@
            } else {
                let version = created_version(create_event@);
                let known = StoreModel {
                    rooms: if valid_room_version(version) {
                        old(self)@.rooms.insert(seq![create_event@.room_id], version)
                    } else {
                        old(self)@.rooms
                    },
                    ..old(self)@
                };
                &&& created is Ok
                &&& final(self)@ == known.with_event(create_event@, true, true).with_events(
                    stored_models(initial_events@),
                )
            },
    {
        if !same_text(create_event.event_type.as_str(), "m.room.create") {
            return Err(StorageError::InvalidInput("create_event must be type m.room.create"));
        }
        let version = match create_event.json.str_at2("content", "room_version") {
            Some(version) => version.clone(),
            None => "12".to_owned(),
        };
        if is_room_version(version.as_str()) {
            self.add_room(create_event.room_id.as_str(), version.as_str());
        }
        self.insert_event_with(create_event.copy(), true, true);
        let ghost created = self@;
        let ghost all = stored_models(initial_events@);
        let mut i: usize = 0;
        assert(all.take(0) =~= Seq::empty());
        while i < initial_events.len()
            invariant
                i <= initial_events.len(),
                self.wf(),
                all == stored_models(initial_events@),
                created.next_pos + initial_events@.len() <= u64::MAX,
                self@.next_pos == created.next_pos + i,
                self@ == created.with_events(all.take(i as int)),
            decreases initial_events.len() - i,
        {
            assert(all.take(i + 1).drop_last() =~= all.take(i as int));
            self.insert_event_with(initial_events[i].copy(), true, true);
            i += 1;
        }
        assert(all.take(i as int) =~= all);
        Ok(())
    }

    /// The version of a room.
    pub fn get_room_version(&self, room_id: &str) -> (version: Option<String>)
        ensures
            match version {
                Some(version) => self@.rooms.contains_key(seq![room_id@]) && self@.rooms[seq![
                    room_id@,
                ]] == version@,
                None => !self@.rooms.contains_key(seq![room_id@]),
            },
    {
        match self.rooms.get(&key1(room_id)) {
            Some(version) => Some(version.clone()),
            None => None,
        }
    }

    /// How many rooms are known.
    pub fn room_count(&self) -> (n: u64)
        requires
            self.wf(),
        ensures
            n == self@.rooms.dom().len(),
    {
        proof {
            self.rooms.count();
            assert(self@.rooms.dom() =~= self.rooms@.dom());
        }
        self.rooms.entries.len() as u64
    }

    /// How many rooms any event is of.
    pub fn count_distinct_rooms(&self) -> (n: u64)
        ensures
            n == self@.seen_rooms().len(),
    {
        let mut rooms: Vec<String> = Vec::new();
        let mut i: usize = 0;
        while i < self.events.len()
            invariant
                i <= self.events.len(),
                rooms.len() == i,
                forall|k: int| 0 <= k < i ==> (#[trigger] rooms@[k])@ == self.events@[k].1.room_id@,
            decreases self.events.len() - i,
        {
            rooms.push(self.events[i].1.room_id.clone());
            i += 1;
        }
        assert(texts(rooms@) =~= self@.events.map_values(|e: (u64, StoredModel)| e.1.room_id));
        TextSet::from_items(&rooms).len() as u64
    }

    /// The events with one of some identifiers.
    pub fn get_events(&self, ids: &Vec<String>) -> (found: Vec<StoredEvent>)
        ensures
            stored_models(found@) == self@.events_named(texts(ids@)),
    {
        let wanted = TextSet::from_items(ids);
        let ghost pred = |e: (u64, StoredModel)| texts(ids@).contains(e.1.event_id);
        let ghost log = self@.events;
        let mut found: Vec<StoredEvent> = Vec::new();
        let mut i: usize = 0;
        proof {
            filter_none(log, pred);
            assert(stored_models(found@) =~= log.take(0).filter(pred).map_values(
                |e: (u64, StoredModel)| e.1,
            ));
        }
        while i < self.events.len()
            invariant
                i <= self.events.len(),
                log == log_models(self.events@),
                wanted@ == texts(ids@).to_set(),
                pred == (|e: (u64, StoredModel)| texts(ids@).contains(e.1.event_id)),
                stored_models(found@) == log.take(i as int).filter(pred).map_values(
                    |e: (u64, StoredModel)| e.1,
                ),
            decreases self.events.len() - i,
        {
            proof {
                filter_one_more(log, pred, i as int);
            }
            if wanted.contains(self.events[i].1.event_id.as_str()) {
                let ghost before = found@;
                found.push(self.events[i].1.copy());
                assert(stored_models(found@) =~= stored_models(before).push(log[i as int].1));
                assert(log.take(i + 1).filter(pred).map_values(|e: (u64, StoredModel)| e.1)
                    =~= log.take(i as int).filter(pred).map_values(
                    |e: (u64, StoredModel)| e.1,
                ).push(log[i as int].1));
            }
            i += 1;
        }
        assert(log.take(i as int) =~= log);
        found
    }

    /// The events after a position, at most `limit` of them, and at least one if there is one.
    pub fn events_after(&self, pos: u64, limit: usize) -> (found: Vec<(u64, StoredEvent)>)
        ensures
            log_models(found@) == first_of(
                self@.log_after(pos),
                if limit == 0 {
                    1
                } else {
                    limit as int
                },
            ),
    {
        let ghost pred = |e: (u64, StoredModel)| e.0 > pos;
        let ghost log = self@.events;
        let mut found: Vec<(u64, StoredEvent)> = Vec::new();
        let mut i: usize = 0;
        proof {
            filter_none(log, pred);
            assert(log_models(found@) =~= Seq::empty());
        }
        while i < self.events.len()
            invariant
                i <= self.events.len(),
                log == log_models(self.events@),
                log == self@.events,
                pred == (|e: (u64, StoredModel)| e.0 > pos),
                log_models(found@) == log.take(i as int).filter(pred),
                found.len() == 0 || found.len() < limit,
            decreases self.events.len() - i,
        {
            proof {
                filter_one_more(log, pred, i as int);
                filter_prefix(log, pred, i + 1);
            }
            if self.events[i].0 > pos {
                let ghost before = found@;
                found.push((self.events[i].0, self.events[i].1.copy()));
                assert(log_models(found@) =~= log_models(before).push(log[i as int]));
                if found.len() >= limit {
                    let ghost whole = log.filter(pred);
                    let ghost n: int = if limit == 0 {
                        1
                    } else {
                        limit as int
                    };
                    assert(log_models(found@).len() == n);
                    assert(first_of(whole, n) =~= whole.take(n));
                    return found;
                }
            }
            i += 1;
        }
        assert(log.take(i as int) =~= log);
        found
    }

    /// The events of a room in a direction, at most `limit` of them. The number that comes with
    /// them is how many they are, where there are more, and nothing where there are not.
    pub fn room_messages(&self, room_id: &str, dir: Direction, limit: usize) -> (page: (
        Vec<StoredEvent>,
        Option<u64>,
    ))
        ensures
            ({
                let log = self@.room_log(room_id@);
                let walked = if dir == Direction::Backward {
                    log.reverse()
                } else {
                    log
                };
                &&& stored_models(page.0@) == first_of(walked, limit as int)
                &&& page.1 == if walked.len() > page.0@.len() {
                    Some(page.0@.len() as u64)
                } else {
                    None
                }
            }),
    {
        let ghost pred = |e: (u64, StoredModel)| e.1.room_id == room_id@;
        let ghost log = self@.events;
        let mut at: Vec<usize> = Vec::new();
        let mut i: usize = 0;
        proof {
            filter_none(log, pred);
        }
        while i < self.events.len()
            invariant
                i <= self.events.len(),
                log == log_models(self.events@),
                pred == (|e: (u64, StoredModel)| e.1.room_id == room_id@),
                at.len() == log.take(i as int).filter(pred).len(),
                forall|k: int|
                    0 <= k < at.len() ==> (#[trigger] at@[k]) < self.events.len() && log[at@[k] as int]
                        == log.take(i as int).filter(pred)[k],
            decreases self.events.len() - i,
        {
            proof {
                filter_one_more(log, pred, i as int);
            }
            if same_text(self.events[i].1.room_id.as_str(), room_id) {
                at.push(i);
            }
            i += 1;
        }
        assert(log.take(i as int) =~= log);
        let ghost all = self@.room_log(room_id@);
        let ghost walked = if dir == Direction::Backward {
            all.reverse()
        } else {
            all
        };
        assert(walked.len() == at.len());
        let total = at.len();
        let mut page: Vec<StoredEvent> = Vec::new();
        let mut n: usize = 0;
        while n < total && n < limit
            invariant
                n <= total,
                n <= limit,
                total == at.len() == all.len(),
                page.len() == n,
                log == log_models(self.events@),
                pred == (|e: (u64, StoredModel)| e.1.room_id == room_id@),
                all == log.filter(pred).map_values(|e: (u64, StoredModel)| e.1),
                walked == (if dir == Direction::Backward {
                    all.reverse()
                } else {
                    all
                }),
                forall|k: int|
                    0 <= k < at.len() ==> (#[trigger] at@[k]) < self.events.len() && log[at@[k] as int]
                        == log.filter(pred)[k],
                forall|k: int| 0 <= k < n ==> (#[trigger] page@[k])@ == walked[k],
            decreases total - n,
        {
            let which: usize = if dir == Direction::Backward {
                total - 1 - n
            } else {
                n
            };
            let place = at[which];
            let event = self.events[place].1.copy();
            assert(event@ == log[place as int].1);
            assert(event@ == all[which as int]);
            page.push(event);
            n += 1;
        }
        assert(stored_models(page@) =~= first_of(walked, limit as int));
        let more = if total > page.len() {
            Some(page.len() as u64)
        } else {
            None
        };
        (page, more)
    }

    /// The event that a client's transaction made: transactions of clients are not kept.
    pub fn get_client_txn(&self, txn_id: &str, user_id: &str) -> (event_id: Option<String>)
        ensures
            event_id is None,
    {
        None
    }

    /// The destinations with pending events: there is no outbox.
    pub fn pending_destinations(&self) -> (dests: Vec<String>)
        ensures
            dests@.len() == 0,
    {
        Vec::new()
    }

    /// The pending events of a destination: there is no outbox.
    pub fn pending_pdus(&self, destination: &str) -> (events: Vec<StoredEvent>)
        ensures
            events@.len() == 0,
    {
        Vec::new()
    }

    /// Whether an inbound transaction was recorded before: none is recorded.
    pub fn record_federation_txn(&self, origin: &str, txn_id: &str) -> (seen: bool)
        ensures
            !seen,
    {
        false
    }

    /// The position that subscribers see.
    pub fn latest(&self) -> (pos: u64)
        ensures
            pos == self@.latest,
    {
        self.latest
    }
}

/// An event of the current state, under its type and its state key.
#[derive(Debug, PartialEq, Eq)]
pub struct StateItem {
    pub event_type: String,
    pub state_key: String,
    pub event: StoredEvent,
}

/// Which events of a room's state are meant.
#[derive(Clone, Copy)]
pub enum Want<'a> {
    /// All of them.
    All,
    /// Those of one type.
    OfType(&'a str),
    /// The member events of the users who are joined.
    Joined,
}

/// Whether an event of the state is meant.
pub open spec fn wanted(want: Want<'_>, key: Seq<Seq<char>>, event: StoredModel) -> bool {
    match want {
        Want::All => true,
        Want::OfType(event_type) => key[1] == event_type@,
        Want::Joined => key[1] == "m.room.member"@ && valid_user_id(key[2]) && event.membership()
            == Some("join"@),
    }
}

/// The key of an item of a room's state.
pub open spec fn item_key(room: Seq<char>, item: StateItem) -> Seq<Seq<char>> {
    state_at(room, item.event_type@, item.state_key@)
}

/// Whether some items are exactly the wanted events of a room's state, each once, in any order.
pub open spec fn lists_state(
    items: Seq<StateItem>,
    state: Map<Seq<Seq<char>>, StoredModel>,
    room: Seq<char>,
    want: Want<'_>,
) -> bool {
    &&& forall|i: int|
        0 <= i < items.len() ==> {
            let key = item_key(room, #[trigger] items[i]);
            state.contains_key(key) && state[key] == items[i].event@ && wanted(want, key, state[key])
        }
    &&& forall|i: int, j: int|
        0 <= i < j < items.len() ==> item_key(room, #[trigger] items[i]) != item_key(
            room,
            #[trigger] items[j],
        )
    &&& forall|t: Seq<char>, k: Seq<char>|
        state.contains_key(#[trigger] state_at(room, t, k)) && wanted(
            want,
            state_at(room, t, k),
            state[state_at(room, t, k)],
        ) ==> exists|i: int| 0 <= i < items.len() && item_key(room, #[trigger] items[i]) == state_at(room, t, k)
}

/// Whether some pairs are exactly the rooms in which a user has one of some memberships, each
/// once, in any order, with the membership.
pub open spec fn lists_memberships(
    pairs: Seq<(String, String)>,
    memberships: Map<Seq<Seq<char>>, Seq<char>>,
    user: Seq<char>,
    among: Seq<Seq<char>>,
) -> bool {
    &&& forall|i: int|
        0 <= i < pairs.len() ==> {
            let key = member_at(user, (#[trigger] pairs[i]).0@);
            memberships.contains_key(key) && memberships[key] == pairs[i].1@ && among.contains(
                pairs[i].1@,
            )
        }
    &&& forall|i: int, j: int|
        0 <= i < j < pairs.len() ==> (#[trigger] pairs[i]).0@ != (#[trigger] pairs[j]).0@
    &&& forall|room: Seq<char>|
        memberships.contains_key(#[trigger] member_at(user, room)) && among.contains(
            memberships[member_at(user, room)],
        ) ==> exists|i: int| 0 <= i < pairs.len() && (#[trigger] pairs[i]).0@ == room
}

impl InMemoryStore {
    /// The wanted events of a room's state.
    fn state_where(&self, room_id: &str, want: Want<'_>) -> (items: Vec<StateItem>)
        requires
            self.wf(),
        ensures
            lists_state(items@, self@.state, room_id@, want),
    {
        let ghost state = self@.state;
        let ghost entries = self.state.entries@;
        let mut items: Vec<StateItem> = Vec::new();
        let mut i: usize = 0;
        while i < self.state.entries.len()
            invariant
                i <= self.state.entries.len(),
                self.wf(),
                state == self@.state,
                entries == self.state.entries@,
                forall|n: int|
                    0 <= n < items@.len() ==> {
                        let key = item_key(room_id@, #[trigger] items@[n]);
                        &&& state.contains_key(key) && state[key] == items@[n].event@
                        &&& wanted(want, key, state[key])
                        &&& exists|m: int| 0 <= m < i && key_of(#[trigger] entries[m]) == key
                    },
                forall|n: int, m: int|
                    0 <= n < m < items@.len() ==> item_key(room_id@, #[trigger] items@[n])
                        != item_key(room_id@, #[trigger] items@[m]),
                forall|m: int|
                    0 <= m < i && key_of(#[trigger] entries[m])[0] == room_id@ && wanted(
                        want,
                        key_of(entries[m]),
                        entries[m].1@,
                    ) ==> exists|n: int|
                        0 <= n < items@.len() && item_key(room_id@, #[trigger] items@[n]) == key_of(
                            entries[m],
                        ),
            decreases self.state.entries.len() - i,
        {
            let key = &self.state.entries[i].0;
            let event = &self.state.entries[i].1;
            let ghost k = key_of(entries[i as int]);
            proof {
                self.state.holds_entry(i as int);
                assert(k.len() == 3);
                assert(k =~= state_at(k[0], k[1], k[2]));
                assert(state.contains_key(k) && state[k] == event@);
            }
            let ghost before = items@;
            if same_text(key[0].as_str(), room_id) {
                let keep = match want {
                    Want::All => true,
                    Want::OfType(event_type) => same_text(key[1].as_str(), event_type),
                    Want::Joined => {
                        if same_text(key[1].as_str(), "m.room.member") && is_user_id(key[2].as_str()) {
                            match event.json.str_at2("content", "membership") {
                                Some(m) => same_text(m.as_str(), "join"),
                                None => false,
                            }
                        } else {
                            false
                        }
                    },
                };
                if keep {
                    items.push(
                        StateItem {
                            event_type: key[1].clone(),
                            state_key: key[2].clone(),
                            event: event.copy(),
                        },
                    );
                    proof {
                        let last = items@.len() - 1;
                        assert(item_key(room_id@, items@[last]) =~= k);
                        assert forall|n: int, m: int| 0 <= n < m < items@.len() implies item_key(
                            room_id@,
                            #[trigger] items@[n],
                        ) != item_key(room_id@, #[trigger] items@[m]) by {
                            assert(items@[n] == before[n]);
                            if m < last {
                                assert(items@[m] == before[m]);
                            } else {
                                let p = choose|p: int|
                                    0 <= p < i && key_of(#[trigger] entries[p]) == item_key(
                                        room_id@,
                                        before[n],
                                    );
                                assert(key_of(entries[p]) != key_of(entries[i as int]));
                            }
                        }
                    }
                }
            }
            proof {
                assert forall|n: int| 0 <= n < items@.len() implies {
                    let key = item_key(room_id@, #[trigger] items@[n]);
                    &&& state.contains_key(key) && state[key] == items@[n].event@
                    &&& wanted(want, key, state[key])
                    &&& exists|m: int| 0 <= m < i + 1 && key_of(#[trigger] entries[m]) == key
                } by {
                    if n < before.len() {
                        assert(items@[n] == before[n]);
                        let p = choose|p: int|
                            0 <= p < i && key_of(#[trigger] entries[p]) == item_key(
                                room_id@,
                                before[n],
                            );
                        assert(key_of(entries[p]) == item_key(room_id@, items@[n]));
                    } else {
                        assert(key_of(entries[i as int]) == item_key(room_id@, items@[n]));
                    }
                }
                assert forall|m: int|
                    0 <= m < i + 1 && key_of(#[trigger] entries[m])[0] == room_id@ && wanted(
                        want,
                        key_of(entries[m]),
                        entries[m].1@,
                    ) implies exists|n: int|
                    0 <= n < items@.len() && item_key(room_id@, #[trigger] items@[n]) == key_of(
                        entries[m],
                    ) by {
                    if m < i {
                        let n = choose|n: int|
                            0 <= n < before.len() && item_key(room_id@, #[trigger] before[n])
                                == key_of(entries[m]);
                        assert(items@[n] == before[n]);
                    } else {
                        let n = items@.len() - 1;
                        assert(item_key(room_id@, items@[n]) == key_of(entries[m]));
                    }
                }
            }
            i += 1;
        }
        proof {
            assert forall|t: Seq<char>, k: Seq<char>|
                state.contains_key(#[trigger] state_at(room_id@, t, k)) && wanted(
                    want,
                    state_at(room_id@, t, k),
                    state[state_at(room_id@, t, k)],
                ) implies exists|n: int|
                0 <= n < items@.len() && item_key(room_id@, #[trigger] items@[n]) == state_at(
                    room_id@,
                    t,
                    k,
                ) by {
                let m = self.state.entry_of(state_at(room_id@, t, k));
                assert(key_of(entries[m]) == state_at(room_id@, t, k));
            }
        }
        items
    }

    /// The current state of a room.
    pub fn current_room_state(&self, room_id: &str) -> (items: Vec<StateItem>)
        requires
            self.wf(),
        ensures
            lists_state(items@, self@.state, room_id@, Want::All),
    {
        self.state_where(room_id, Want::All)
    }

    /// The current state event of a room under a type and a state key.
    pub fn current_state_event(&self, room_id: &str, event_type: &str, state_key: &str) -> (event:
        Option<StoredEvent>)
        ensures
            ({
                let key = state_at(room_id@, event_type@, state_key@);
                match event {
                    Some(event) => self@.state.contains_key(key) && self@.state[key] == event@,
                    None => !self@.state.contains_key(key),
                }
            }),
    {
        match self.state.get(&key3(room_id, event_type, state_key)) {
            Some(event) => Some(event.copy()),
            None => None,
        }
    }

    /// The current state events of a room of one type.
    pub fn current_state_events_of_type(&self, room_id: &str, event_type: &str) -> (items: Vec<
        StateItem,
    >)
        requires
            self.wf(),
        ensures
            lists_state(items@, self@.state, room_id@, Want::OfType(event_type)),
    {
        self.state_where(room_id, Want::OfType(event_type))
    }

    /// The member events of the users who are joined to a room.
    pub fn joined_members(&self, room_id: &str) -> (items: Vec<StateItem>)
        requires
            self.wf(),
        ensures
            lists_state(items@, self@.state, room_id@, Want::Joined),
    {
        self.state_where(room_id, Want::Joined)
    }

    /// All current member events of a room, as JSON.
    pub fn members_of(&self, room_id: &str) -> (events: Vec<Json>)
        requires
            self.wf(),
        ensures
            exists|items: Seq<StateItem>|
                #![trigger lists_state(items, self@.state, room_id@, Want::OfType("m.room.member"))]
                lists_state(items, self@.state, room_id@, Want::OfType("m.room.member"))
                    && crate::json::models(events@) == items.map_values(
                    |item: StateItem| item.event@.json,
                ),
    {
        let items = self.state_where(room_id, Want::OfType("m.room.member"));
        let mut events: Vec<Json> = Vec::new();
        let mut i: usize = 0;
        while i < items.len()
            invariant
                i <= items.len(),
                events.len() == i,
                forall|k: int| 0 <= k < i ==> (#[trigger] events@[k]).model() == items@[k].event@.json,
            decreases items.len() - i,
        {
            events.push(items[i].event.json.copy());
            i += 1;
        }
        assert(crate::json::models(events@) =~= items@.map_values(
            |item: StateItem| item.event@.json,
        ));
        assert(lists_state(items@, self@.state, room_id@, Want::OfType("m.room.member")));
        events
    }

    /// The rooms in which a user has one of some memberships, with the membership.
    pub fn rooms_with_membership(&self, user_id: &str, memberships: &Vec<String>) -> (pairs: Vec<
        (String, String),
    >)
        requires
            self.wf(),
        ensures
            lists_memberships(pairs@, self@.memberships, user_id@, texts(memberships@)),
    {
        let among = TextSet::from_items(memberships);
        let ghost all = self@.memberships;
        let ghost entries = self.memberships.entries@;
        let ghost allowed = texts(memberships@);
        let mut pairs: Vec<(String, String)> = Vec::new();
        let mut i: usize = 0;
        while i < self.memberships.entries.len()
            invariant
                i <= self.memberships.entries.len(),
                self.wf(),
                all == self@.memberships,
                entries == self.memberships.entries@,
                allowed == texts(memberships@),
                among@ == allowed.to_set(),
                forall|n: int|
                    0 <= n < pairs@.len() ==> {
                        let key = member_at(user_id@, (#[trigger] pairs@[n]).0@);
                        &&& all.contains_key(key) && all[key] == pairs@[n].1@
                        &&& allowed.contains(pairs@[n].1@)
                        &&& exists|m: int| 0 <= m < i && key_of(#[trigger] entries[m]) == key
                    },
                forall|n: int, m: int|
                    0 <= n < m < pairs@.len() ==> (#[trigger] pairs@[n]).0@ != (
                    #[trigger] pairs@[m]).0@,
                forall|m: int|
                    0 <= m < i && key_of(#[trigger] entries[m])[0] == user_id@ && allowed.contains(
                        entries[m].1@,
                    ) ==> exists|n: int|
                        0 <= n < pairs@.len() && member_at(user_id@, (#[trigger] pairs@[n]).0@)
                            == key_of(entries[m]),
            decreases self.memberships.entries.len() - i,
        {
            let key = &self.memberships.entries[i].0;
            let membership = &self.memberships.entries[i].1;
            let ghost k = key_of(entries[i as int]);
            proof {
                self.memberships.holds_entry(i as int);
                assert(k.len() == 2);
                assert(k =~= member_at(k[0], k[1]));
                assert(all.contains_key(k) && all[k] == membership@);
            }
            let ghost before = pairs@;
            if same_text(key[0].as_str(), user_id) && among.contains(membership.as_str()) {
                pairs.push((key[1].clone(), membership.clone()));
                proof {
                    let last = pairs@.len() - 1;
                    assert(member_at(user_id@, pairs@[last].0@) =~= k);
                    assert forall|n: int, m: int| 0 <= n < m < pairs@.len() implies (
                    #[trigger] pairs@[n]).0@ != (#[trigger] pairs@[m]).0@ by {
                        assert(pairs@[n] == before[n]);
                        if m < last {
                            assert(pairs@[m] == before[m]);
                        } else {
                            let p = choose|p: int|
                                0 <= p < i && key_of(#[trigger] entries[p]) == member_at(
                                    user_id@,
                                    before[n].0@,
                                );
                            assert(key_of(entries[p]) != key_of(entries[i as int]));
                        }
                    }
                }
            }
            proof {
                assert forall|n: int| 0 <= n < pairs@.len() implies {
                    let key = member_at(user_id@, (#[trigger] pairs@[n]).0@);
                    &&& all.contains_key(key) && all[key] == pairs@[n].1@
                    &&& allowed.contains(pairs@[n].1@)
                    &&& exists|m: int| 0 <= m < i + 1 && key_of(#[trigger] entries[m]) == key
                } by {
                    if n < before.len() {
                        assert(pairs@[n] == before[n]);
                        let p = choose|p: int|
                            0 <= p < i && key_of(#[trigger] entries[p]) == member_at(
                                user_id@,
                                before[n].0@,
                            );
                        assert(key_of(entries[p]) == member_at(user_id@, pairs@[n].0@));
                    } else {
                        assert(key_of(entries[i as int]) == member_at(user_id@, pairs@[n].0@));
                    }
                }
                assert forall|m: int|
                    0 <= m < i + 1 && key_of(#[trigger] entries[m])[0] == user_id@
                        && allowed.contains(entries[m].1@) implies exists|n: int|
                    0 <= n < pairs@.len() && member_at(user_id@, (#[trigger] pairs@[n]).0@) == key_of(
                        entries[m],
                    ) by {
                    if m < i {
                        let n = choose|n: int|
                            0 <= n < before.len() && member_at(user_id@, (#[trigger] before[n]).0@)
                                == key_of(entries[m]);
                        assert(pairs@[n] == before[n]);
                    } else {
                        let n = pairs@.len() - 1;
                        assert(member_at(user_id@, pairs@[n].0@) == key_of(entries[m]));
                    }
                }
            }
            i += 1;
        }
        proof {
            assert forall|room: Seq<char>|
                all.contains_key(#[trigger] member_at(user_id@, room)) && allowed.contains(
                    all[member_at(user_id@, room)],
                ) implies exists|n: int| 0 <= n < pairs@.len() && (#[trigger] pairs@[n]).0@ == room by {
                let m = self.memberships.entry_of(member_at(user_id@, room));
                assert(key_of(entries[m]) == member_at(user_id@, room));
                let n = choose|n: int|
                    0 <= n < pairs@.len() && member_at(user_id@, (#[trigger] pairs@[n]).0@)
                        == key_of(entries[m]);
                assert(member_at(user_id@, pairs@[n].0@)[1] == member_at(user_id@, room)[1]);
            }
        }
        pairs
    }

    /// The rooms in which a user has one membership.
    fn rooms_with(&self, user_id: &str, membership: &str) -> (rooms: Vec<String>)
        requires
            self.wf(),
        ensures
            lists_rooms(texts(rooms@), self@.memberships, user_id@, membership@),
    {
        let mut among: Vec<String> = Vec::new();
        among.push(membership.to_owned());
        let pairs = self.rooms_with_membership(user_id, &among);
        let mut rooms: Vec<String> = Vec::new();
        let mut i: usize = 0;
        while i < pairs.len()
            invariant
                i <= pairs.len(),
                rooms.len() == i,
                forall|k: int| 0 <= k < i ==> (#[trigger] rooms@[k])@ == pairs@[k].0@,
            decreases pairs.len() - i,
        {
            rooms.push(pairs[i].0.clone());
            i += 1;
        }
        proof {
            let out = texts(rooms@);
            let want = texts(among@);
            assert(want =~= seq![membership@]);
            assert forall|room: Seq<char>| #[trigger] out.contains(room) == (
            self@.memberships.contains_key(member_at(user_id@, room)) && self@.memberships[member_at(
                user_id@,
                room,
            )] == membership@) by {
                if out.contains(room) {
                    let k = choose|k: int| 0 <= k < out.len() && out[k] == room;
                    assert(pairs@[k].0@ == room);
                }
                if self@.memberships.contains_key(member_at(user_id@, room))
                    && self@.memberships[member_at(user_id@, room)] == membership@ {
                    assert(want[0] == membership@);
                    assert(want.contains(self@.memberships[member_at(user_id@, room)]));
                    let k = choose|k: int| 0 <= k < pairs@.len() && (#[trigger] pairs@[k]).0@ == room;
                    assert(out[k] == room);
                }
            }
            assert forall|i: int, j: int|
                0 <= i < out.len() && 0 <= j < out.len() && i != j implies out[i] != out[j] by {
                assert(pairs@[i].0@ == out[i] && pairs@[j].0@ == out[j]);
            }
        }
        rooms
    }

    /// The rooms that a user is joined to.
    pub fn joined_rooms(&self, user_id: &str) -> (rooms: Vec<String>)
        requires
            self.wf(),
        ensures
            lists_rooms(texts(rooms@), self@.memberships, user_id@, "join"@),
    {
        self.rooms_with(user_id, "join")
    }

    /// The rooms that a user is invited to.
    pub fn invited_rooms(&self, user_id: &str) -> (rooms: Vec<String>)
        requires
            self.wf(),
        ensures
            lists_rooms(texts(rooms@), self@.memberships, user_id@, "invite"@),
    {
        self.rooms_with(user_id, "invite")
    }
}

/// Whether some rooms are exactly those in which a user has a membership, each once.
pub open spec fn lists_rooms(
    rooms: Seq<Seq<char>>,
    memberships: Map<Seq<Seq<char>>, Seq<char>>,
    user: Seq<char>,
    membership: Seq<char>,
) -> bool {
    &&& rooms.no_duplicates()
    &&& forall|room: Seq<char>| #[trigger]
        rooms.contains(room) == (memberships.contains_key(member_at(user, room))
            && memberships[member_at(user, room)] == membership)
}

/// What is stored is read back: the event is the last of its room and the last under its
/// identifier; a state event is the current one of its kind; a member event gives the membership.
pub proof fn stored_is_read_back(store: StoreModel, event: StoredModel)
    ensures
        ({
            let now = store.with_event(event, true, true);
            &&& now.events.last() == (store.next_pos, event)
            &&& now.room_log(event.room_id) == store.room_log(event.room_id).push(event)
            &&& now.events_named(seq![event.event_id]) == store.events_named(
                seq![event.event_id],
            ).push(event)
            &&& event.state_key matches Some(key) ==> now.state[state_at(
                event.room_id,
                event.event_type,
                key,
            )] == event
            &&& event.member() matches Some(user) ==> (event.membership() matches Some(m)
                ==> now.memberships[member_at(user, event.room_id)] == m)
        }),
{
    let now = store.with_event(event, true, true);
    let entry = (store.next_pos, event);
    let value = |e: (u64, StoredModel)| e.1;
    assert(now.events.take(store.events.len() as int) =~= store.events);
    assert(now.events.take(store.events.len() as int + 1) =~= now.events);
    let in_room = |e: (u64, StoredModel)| e.1.room_id == event.room_id;
    filter_one_more(now.events, in_room, store.events.len() as int);
    assert(store.events.filter(in_room).push(entry).map_values(value) =~= store.events.filter(
        in_room,
    ).map_values(value).push(event));
    let ids = seq![event.event_id];
    assert(ids[0] == event.event_id);
    let named = |e: (u64, StoredModel)| ids.contains(e.1.event_id);
    filter_one_more(now.events, named, store.events.len() as int);
    assert(store.events.filter(named).push(entry).map_values(value) =~= store.events.filter(
        named,
    ).map_values(value).push(event));
}

/// An event of the past feeds history alone: it is logged, and neither the current state nor any
/// membership changes.
pub proof fn history_changes_no_state(store: StoreModel, event: StoredModel)
    ensures
        store.with_event(event, false, false).events == store.events.push((store.next_pos, event)),
        store.with_event(event, false, false).state == store.state,
        store.with_event(event, false, false).memberships == store.memberships,
        store.with_event(event, false, false).rooms == store.rooms,
{
}

/// A message, which has no state key, changes no current state.
pub proof fn messages_change_no_state(store: StoreModel, event: StoredModel)
    requires
        event.state_key is None,
    ensures
        store.with_event(event, true, true).state == store.state,
        store.with_event(event, true, true).memberships == store.memberships,
{
}

/// Subscribers see every event: the position that they see is that of the newest event, and
/// nothing comes after it.
pub proof fn nothing_after_latest(store: StoreModel)
    requires
        store.ordered(),
    ensures
        store.log_after(store.latest).len() == 0,
        store.next_pos < u64::MAX ==> forall|event: StoredModel, track: bool, update: bool| #[trigger]
            store.with_event(event, track, update).latest == store.next_pos,
{
    let late = |e: (u64, StoredModel)| e.0 > store.latest;
    assert(store.events.all(|e: (u64, StoredModel)| !late(e)));
    store.events.lemma_all_neg_filter_empty(late);
}

/// The event that a JSON value gives: it must name its identifier, its room, its type and its
/// sender. A missing timestamp is 0.
pub open spec fn event_in(value: JsonModel) -> Option<StoredModel> {
    match (
        value.text_at("event_id"@),
        value.text_at("room_id"@),
        value.text_at("type"@),
        value.text_at("sender"@),
    ) {
        (Some(event_id), Some(room_id), Some(event_type), Some(sender)) if valid_event_id(event_id)
            && valid_room_id(room_id) && valid_user_id(sender) => Some(
            StoredModel {
                event_id,
                room_id,
                event_type,
                state_key: value.text_at("state_key"@),
                sender,
                origin_server_ts: match value.get("origin_server_ts"@) {
                    Some(ts) if ts.whole() is Some => ts.whole()->0 as u64,
                    _ => 0,
                },
                json: value,
            },
        ),
        _ => None,
    }
}

/// Reads an event from a JSON value.
pub fn event_from_value(value: &Json) -> (event: Option<StoredEvent>)
    ensures
        match event {
            Some(event) => event_in(value.model()) == Some(event@),
            None => event_in(value.model()) is None,
        },
{
    match (
        value.str_at("event_id"),
        value.str_at("room_id"),
        value.str_at("type"),
        value.str_at("sender"),
    ) {
        (Some(event_id), Some(room_id), Some(event_type), Some(sender)) => {
            if !is_event_id(event_id.as_str()) || !is_room_id(room_id.as_str()) || !is_user_id(
                sender.as_str(),
            ) {
                return None;
            }
            let state_key = match value.str_at("state_key") {
                Some(key) => Some(key.clone()),
                None => None,
            };
            let origin_server_ts: u64 = match value.get("origin_server_ts") {
                Some(ts) => match ts.as_u64() {
                    Some(ts) => ts,
                    None => 0,
                },
                None => 0,
            };
            Some(
                StoredEvent {
                    event_id: event_id.clone(),
                    room_id: room_id.clone(),
                    event_type: event_type.clone(),
                    state_key,
                    sender: sender.clone(),
                    origin_server_ts,
                    json: value.copy(),
                },
            )
        },
        _ => None,
    }
}

/// The JSON of an event, made of its parts.
pub open spec fn event_json(
    event_id: Seq<char>,
    room_id: Seq<char>,
    event_type: Seq<char>,
    state_key: Option<Seq<char>>,
    sender: Seq<char>,
    origin_server_ts: u64,
    content: JsonModel,
) -> JsonModel {
    let head = seq![
        ("event_id"@, JsonModel::Str(event_id)),
        ("room_id"@, JsonModel::Str(room_id)),
        ("type"@, JsonModel::Str(event_type)),
    ];
    let keyed = match state_key {
        Some(key) => head.push(("state_key"@, JsonModel::Str(key))),
        None => head,
    };
    JsonModel::Object(
        keyed.push(("sender"@, JsonModel::Str(sender))).push(
            ("origin_server_ts"@, JsonModel::Number(decimal(origin_server_ts as nat))),
        ).push(("content"@, content)),
    )
}

proof fn first_with_key(
    members: Seq<(Seq<char>, JsonModel)>,
    at: int,
)
    requires
        0 <= at < members.len(),
        forall|i: int| 0 <= i < at ==> (#[trigger] members[i]).0 != members[at].0,
    ensures
        JsonModel::Object(members).get(members[at].0) == Some(members[at].1),
{
    crate::json::member_position_is(members, members[at].0, 0, at);
}

/// An event that was made from its parts is read from its JSON as it was made.
pub proof fn made_event_reads_back(
    event_id: Seq<char>,
    room_id: Seq<char>,
    event_type: Seq<char>,
    state_key: Option<Seq<char>>,
    sender: Seq<char>,
    origin_server_ts: u64,
    content: JsonModel,
)
    requires
        valid_event_id(event_id),
        valid_room_id(room_id),
        valid_user_id(sender),
    ensures
        ({
            let json = event_json(
                event_id,
                room_id,
                event_type,
                state_key,
                sender,
                origin_server_ts,
                content,
            );
            event_in(json) == Some(
                StoredModel {
                    event_id,
                    room_id,
                    event_type,
                    state_key,
                    sender,
                    origin_server_ts,
                    json,
                },
            )
        }),
{
    reveal_strlit("event_id");
    reveal_strlit("room_id");
    reveal_strlit("type");
    reveal_strlit("state_key");
    reveal_strlit("sender");
    reveal_strlit("origin_server_ts");
    reveal_strlit("content");
    let json = event_json(
        event_id,
        room_id,
        event_type,
        state_key,
        sender,
        origin_server_ts,
        content,
    );
    let members = json->Object_0;
    assert("room_id"@[0] != "content"@[0]);
    let n: int = if state_key is Some {
        4
    } else {
        3
    };
    assert(members[0].0.len() == 8);
    assert(members[1].0.len() == 7);
    assert(members[2].0.len() == 4);
    assert(state_key is Some ==> members[3].0.len() == 9);
    assert(members[n].0.len() == 6);
    assert(members[n + 1].0.len() == 16);
    assert(members[n + 2].0.len() == 7);
    assert(members.len() == n + 3);
    first_with_key(members, 0);
    first_with_key(members, 1);
    first_with_key(members, 2);
    if state_key is Some {
        first_with_key(members, 3);
    } else {
        crate::json::member_position_is(members, "state_key"@, 0, members.len() as int);
    }
    first_with_key(members, n);
    first_with_key(members, n + 1);
    crate::text::number_of_decimal(origin_server_ts as nat);
}

/// Makes an event, with its JSON, from its parts.
pub fn make_event(
    event_id: &str,
    room_id: &str,
    event_type: &str,
    state_key: Option<&str>,
    sender: &str,
    origin_server_ts: u64,
    content: Json,
) -> (event: StoredEvent)
    ensures
        event@ == (StoredModel {
            event_id: event_id@,
            room_id: room_id@,
            event_type: event_type@,
            state_key: match state_key {
                Some(key) => Some(key@),
                None => None,
            },
            sender: sender@,
            origin_server_ts,
            json: event_json(
                event_id@,
                room_id@,
                event_type@,
                match state_key {
                    Some(key) => Some(key@),
                    None => None,
                },
                sender@,
                origin_server_ts,
                content.model(),
            ),
        }),
{
    let ghost want = event_json(
        event_id@,
        room_id@,
        event_type@,
        match state_key {
            Some(key) => Some(key@),
            None => None,
        },
        sender@,
        origin_server_ts,
        content.model(),
    );
    let head = Json::empty_object().and("event_id", Json::string(event_id)).and(
        "room_id",
        Json::string(room_id),
    ).and("type", Json::string(event_type));
    let (keyed, state_key) = match state_key {
        Some(key) => (head.and("state_key", Json::string(key)), Some(key.to_owned())),
        None => (head, None),
    };
    let json = keyed.and("sender", Json::string(sender)).and(
        "origin_server_ts",
        Json::Number(decimal_text(origin_server_ts)),
    ).and("content", content);
    assert(json.model()->Object_0 =~= want->Object_0);
    StoredEvent {
        event_id: event_id.to_owned(),
        room_id: room_id.to_owned(),
        event_type: event_type.to_owned(),
        state_key,
        sender: sender.to_owned(),
        origin_server_ts,
        json,
    }
}

/// The log of a room has every event of the room and no other.
pub proof fn room_log_is_whole(store: StoreModel, room: Seq<char>, event: StoredModel)
    ensures
        store.room_log(room).contains(event) <==> exists|i: int|
            0 <= i < store.events.len() && (#[trigger] store.events[i]).1 == event
                && event.room_id == room,
{
    let pred = |e: (u64, StoredModel)| e.1.room_id == room;
    let value = |e: (u64, StoredModel)| e.1;
    let kept = store.events.filter(pred);
    let log = store.room_log(room);
    if log.contains(event) {
        let k = choose|k: int| 0 <= k < log.len() && log[k] == event;
        assert(log[k] == kept[k].1);
        store.events.lemma_filter_pred(pred, k);
        assert(kept.contains(kept[k]));
        store.events.lemma_filter_contains_rev(pred, kept[k]);
        let i = choose|i: int| 0 <= i < store.events.len() && store.events[i] == kept[k];
        assert(store.events[i].1 == event);
    }
    if exists|i: int|
        0 <= i < store.events.len() && (#[trigger] store.events[i]).1 == event && event.room_id
            == room {
        let i = choose|i: int|
            0 <= i < store.events.len() && (#[trigger] store.events[i]).1 == event && event.room_id
                == room;
        store.events.lemma_filter_contains(pred, i);
        let k = choose|k: int| 0 <= k < kept.len() && kept[k] == store.events[i];
        assert(log[k] == event);
    }
}

/// A page of a room's history: as many of its events as are wanted, or all there are; from the oldest on
/// going forward, from the newest back going backward; and it tells whether there is more.
pub proof fn page_is_next_to_read(
    store: InMemoryStore,
    room_id: &str,
    dir: Direction,
    limit: usize,
    page: (Vec<StoredEvent>, Option<u64>),
    i: int,
)
    requires
        call_ensures(InMemoryStore::room_messages, (&store, room_id, dir, limit), page),
    ensures
        ({
            let log = store@.room_log(room_id@);
            &&& page.0@.len() == if log.len() < limit {
                log.len()
            } else {
                limit as nat
            }
            &&& 0 <= i < page.0@.len() ==> page.0@[i]@ == if dir == Direction::Backward {
                log[log.len() - 1 - i]
            } else {
                log[i]
            }
            &&& page.1 is Some <==> log.len() > limit
        }),
{
    let log = store@.room_log(room_id@);
    assert(stored_models(page.0@).len() == page.0@.len());
    if 0 <= i < page.0@.len() {
        assert(stored_models(page.0@)[i] == page.0@[i]@);
    }
}

/// The newest event of a room is the first that is read going backward, and the last going forward.
pub proof fn newest_is_first_going_backward(
    before: StoreModel,
    event: StoredModel,
    store: InMemoryStore,
    room_id: &str,
    limit: usize,
    page: (Vec<StoredEvent>, Option<u64>),
)
    requires
        store@ == before.with_event(event, true, true),
        room_id@ == event.room_id,
        limit > 0,
        call_ensures(
            InMemoryStore::room_messages,
            (&store, room_id, Direction::Backward, limit),
            page,
        ),
    ensures
        page.0@.len() > 0,
        page.0@[0]@ == event,
{
    stored_is_read_back(before, event);
    page_is_next_to_read(store, room_id, Direction::Backward, limit, page, 0);
}

/// What comes after a position is what has a later one: each such event, up to the limit, in order, and
/// at least one if there is one.
pub proof fn later_events_are_found(
    store: InMemoryStore,
    pos: u64,
    limit: usize,
    found: Vec<(u64, StoredEvent)>,
    i: int,
)
    requires
        call_ensures(InMemoryStore::events_after, (&store, pos, limit), found),
    ensures
        0 <= i < found@.len() ==> found@[i].0 > pos && store@.events.contains(
            (found@[i].0, found@[i].1@),
        ),
        found@.len() <= limit || found@.len() == 1,
        0 <= i < store@.events.len() && store@.events[i].0 > pos ==> found@.len() > 0,
        0 <= i < store@.events.len() && store@.events[i].0 > pos && store@.log_after(pos).len()
            <= limit ==> log_models(found@).contains(store@.events[i]),
{
    let pred = |e: (u64, StoredModel)| e.0 > pos;
    let all = store@.events;
    let late = store@.log_after(pos);
    let models = log_models(found@);
    assert(models.len() == found@.len());
    if 0 <= i < found@.len() {
        assert(models[i] == (found@[i].0, found@[i].1@));
        assert(models[i] == late[i]);
        all.lemma_filter_pred(pred, i);
        assert(late.contains(late[i]));
        all.lemma_filter_contains_rev(pred, late[i]);
    }
    if 0 <= i < all.len() && all[i].0 > pos {
        all.lemma_filter_contains(pred, i);
        assert(late.len() > 0);
    }
}

/// An event is found under its identifier, and nothing is found under any other.
pub proof fn events_are_found_by_id(
    store: InMemoryStore,
    ids: Vec<String>,
    found: Vec<StoredEvent>,
    event: StoredModel,
)
    requires
        call_ensures(InMemoryStore::get_events, (&store, &ids), found),
    ensures
        stored_models(found@).contains(event) <==> texts(ids@).contains(event.event_id) && exists|
            i: int,
        |
            0 <= i < store@.events.len() && (#[trigger] store@.events[i]).1 == event,
{
    let pred = |e: (u64, StoredModel)| texts(ids@).contains(e.1.event_id);
    let all = store@.events;
    let kept = all.filter(pred);
    let models = stored_models(found@);
    if models.contains(event) {
        let k = choose|k: int| 0 <= k < models.len() && models[k] == event;
        assert(models[k] == kept[k].1);
        all.lemma_filter_pred(pred, k);
        assert(kept.contains(kept[k]));
        all.lemma_filter_contains_rev(pred, kept[k]);
        let i = choose|i: int| 0 <= i < all.len() && all[i] == kept[k];
        assert(all[i].1 == event);
    }
    if texts(ids@).contains(event.event_id) && exists|i: int|
        0 <= i < all.len() && (#[trigger] all[i]).1 == event {
        let i = choose|i: int| 0 <= i < all.len() && (#[trigger] all[i]).1 == event;
        all.lemma_filter_contains(pred, i);
        let k = choose|k: int| 0 <= k < kept.len() && kept[k] == all[i];
        assert(models[k] == event);
    }
}

/// A stored event leaves everything else as it was: the state of other rooms, types and keys, the
/// memberships of other users and in other rooms, and the events before it.
pub proof fn storing_touches_nothing_else(
    store: StoreModel,
    event: StoredModel,
    room: Seq<char>,
    event_type: Seq<char>,
    key: Seq<char>,
)
    ensures
        ({
            let now = store.with_event(event, true, true);
            &&& now.rooms == store.rooms
            &&& now.events.drop_last() == store.events
            &&& event.state_key != Some(key) || event.room_id != room || event.event_type
                != event_type ==> {
                &&& now.state.contains_key(state_at(room, event_type, key))
                    == store.state.contains_key(state_at(room, event_type, key))
                &&& now.state[state_at(room, event_type, key)] == store.state[state_at(
                    room,
                    event_type,
                    key,
                )]
            }
            &&& event.state_key != Some(key) || event.room_id != room || event.event_type
                != "m.room.member"@ ==> {
                &&& now.memberships.contains_key(member_at(key, room))
                    == store.memberships.contains_key(member_at(key, room))
                &&& now.memberships[member_at(key, room)] == store.memberships[member_at(
                    key,
                    room,
                )]
            }
        }),
{
    let now = store.with_event(event, true, true);
    assert(now.events.drop_last() =~= store.events);
    let place = state_at(room, event_type, key);
    assert(place[0] == room && place[1] == event_type && place[2] == key);
    let member = member_at(key, room);
    assert(member[0] == key && member[1] == room);
    if let Some(own) = event.state_key {
        let there = state_at(event.room_id, event.event_type, own);
        assert(there[0] == event.room_id && there[1] == event.event_type && there[2] == own);
        let who = member_at(own, event.room_id);
        assert(who[0] == own && who[1] == event.room_id);
    }
}

/// A member event sets the membership of the user it is about, to what it says; one that says nothing
/// takes it away; one about no user changes nothing.
pub proof fn member_event_sets_membership(store: StoreModel, event: StoredModel, user: Seq<char>)
    requires
        event.event_type == "m.room.member"@,
        event.state_key == Some(user),
    ensures
        ({
            let now = store.with_event(event, true, true).memberships;
            let place = seq![user, event.room_id];
            let said = event.json.text_at2("content"@, "membership"@);
            &&& valid_user_id(user) && said is Some ==> now.contains_key(place) && now[place]
                == said->0
            &&& valid_user_id(user) && said is None ==> !now.contains_key(place)
            &&& !valid_user_id(user) ==> now == store.memberships
        }),
{
}

/// Events are stored one by one, in order, each at the next position.
pub proof fn events_are_stored_in_order(store: StoreModel, events: Seq<StoredModel>, i: int)
    requires
        store.next_pos + events.len() <= u64::MAX,
        0 <= i < events.len(),
    ensures
        store.with_events(events).events.len() == store.events.len() + events.len(),
        store.with_events(events).next_pos == store.next_pos + events.len(),
        store.with_events(events).events[store.events.len() + i] == (
            (store.next_pos + i) as u64,
            events[i],
        ),
    decreases events.len(),
{
    reveal_with_fuel(StoreModel::with_events, 2);
    let fewer = events.drop_last();
    if fewer.len() > 0 {
        if i < fewer.len() {
            events_are_stored_in_order(store, fewer, i);
        } else {
            events_are_stored_in_order(store, fewer, 0);
        }
    }
}

/// The state of a room is listed whole: every event of it, each under its type and its key, and nothing
/// else.
pub proof fn whole_state_is_listed(
    store: InMemoryStore,
    room_id: &str,
    items: Vec<StateItem>,
    event_type: Seq<char>,
    key: Seq<char>,
)
    requires
        call_ensures(InMemoryStore::current_room_state, (&store, room_id), items),
    ensures
        store@.state.contains_key(seq![room_id@, event_type, key]) <==> exists|i: int|
            0 <= i < items@.len() && (#[trigger] items@[i]).event_type@ == event_type
                && items@[i].state_key@ == key,
        forall|i: int|
            0 <= i < items@.len() && (#[trigger] items@[i]).event_type@ == event_type
                && items@[i].state_key@ == key ==> items@[i].event@ == store@.state[seq![
                room_id@,
                event_type,
                key,
            ]],
{
    listed_exactly(items@, store@.state, room_id@, Want::All, event_type, key);
}

proof fn listed_exactly(
    items: Seq<StateItem>,
    state: Map<Seq<Seq<char>>, StoredModel>,
    room: Seq<char>,
    want: Want<'_>,
    event_type: Seq<char>,
    key: Seq<char>,
)
    requires
        lists_state(items, state, room, want),
    ensures
        state.contains_key(state_at(room, event_type, key)) && wanted(
            want,
            state_at(room, event_type, key),
            state[state_at(room, event_type, key)],
        ) <==> exists|i: int|
            0 <= i < items.len() && (#[trigger] items[i]).event_type@ == event_type
                && items[i].state_key@ == key,
        forall|i: int|
            0 <= i < items.len() && (#[trigger] items[i]).event_type@ == event_type
                && items[i].state_key@ == key ==> items[i].event@ == state[state_at(
                room,
                event_type,
                key,
            )],
{
    let place = state_at(room, event_type, key);
    assert forall|i: int|
        0 <= i < items.len() && (#[trigger] items[i]).event_type@ == event_type && items[i].state_key@
            == key implies state.contains_key(place) && wanted(want, place, state[place])
        && items[i].event@ == state[place] by {
        assert(item_key(room, items[i]) == place);
    }
    if state.contains_key(place) && wanted(want, place, state[place]) {
        let i = choose|i: int| 0 <= i < items.len() && item_key(room, #[trigger] items[i]) == place;
        same_place(room, items[i].event_type@, items[i].state_key@, event_type, key);
        assert(items[i].event_type@ == event_type && items[i].state_key@ == key);
    }
}

proof fn same_place(
    room: Seq<char>,
    event_type: Seq<char>,
    key: Seq<char>,
    other_type: Seq<char>,
    other_key: Seq<char>,
)
    requires
        state_at(room, event_type, key) == state_at(room, other_type, other_key),
    ensures
        event_type == other_type,
        key == other_key,
{
    let first = state_at(room, event_type, key);
    let second = state_at(room, other_type, other_key);
    assert(first[1] == event_type && first[2] == key);
    assert(second[1] == other_type && second[2] == other_key);
}

/// The state events of a type are listed whole, and no event of another type among them.
pub proof fn state_of_a_type_is_listed(
    store: InMemoryStore,
    room_id: &str,
    event_type: &str,
    items: Vec<StateItem>,
    listed: Seq<char>,
    key: Seq<char>,
)
    requires
        call_ensures(
            InMemoryStore::current_state_events_of_type,
            (&store, room_id, event_type),
            items,
        ),
    ensures
        (exists|i: int|
            0 <= i < items@.len() && (#[trigger] items@[i]).event_type@ == listed
                && items@[i].state_key@ == key) <==> listed == event_type@
            && store@.state.contains_key(seq![room_id@, event_type@, key]),
{
    listed_exactly(items@, store@.state, room_id@, Want::OfType(event_type), listed, key);
    assert(seq![room_id@, listed, key][1] == listed);
}

/// The joined members of a room are those whose member event says `join`: each of them, and no one else.
pub proof fn joined_are_those_who_joined(
    store: InMemoryStore,
    room_id: &str,
    items: Vec<StateItem>,
    user: Seq<char>,
)
    requires
        call_ensures(InMemoryStore::joined_members, (&store, room_id), items),
        valid_user_id(user),
    ensures
        (exists|i: int|
            0 <= i < items@.len() && (#[trigger] items@[i]).event_type@ == "m.room.member"@
                && items@[i].state_key@ == user) <==> {
            let place = seq![room_id@, "m.room.member"@, user];
            store@.state.contains_key(place) && store@.state[place].json.text_at2(
                "content"@,
                "membership"@,
            ) == Some("join"@)
        },
{
    listed_exactly(items@, store@.state, room_id@, Want::Joined, "m.room.member"@, user);
    let place = seq![room_id@, "m.room.member"@, user];
    assert(place[1] == "m.room.member"@ && place[2] == user);
}

/// The rooms that a user is joined to, and those that they are invited to, are listed whole, each once.
pub proof fn rooms_of_a_user_are_listed(
    store: InMemoryStore,
    user_id: &str,
    joined: Vec<String>,
    invited: Vec<String>,
    room: Seq<char>,
)
    requires
        call_ensures(InMemoryStore::joined_rooms, (&store, user_id), joined),
        call_ensures(InMemoryStore::invited_rooms, (&store, user_id), invited),
    ensures
        texts(joined@).contains(room) <==> store@.memberships.contains_key(seq![user_id@, room])
            && store@.memberships[seq![user_id@, room]] == "join"@,
        texts(invited@).contains(room) <==> store@.memberships.contains_key(seq![user_id@, room])
            && store@.memberships[seq![user_id@, room]] == "invite"@,
        texts(joined@).no_duplicates(),
        texts(invited@).no_duplicates(),
{
}

/// The rooms in which a user has one of some memberships are listed whole, each once, with the
/// membership.
pub proof fn memberships_of_a_user_are_listed(
    store: InMemoryStore,
    user_id: &str,
    among: Vec<String>,
    pairs: Vec<(String, String)>,
    room: Seq<char>,
    membership: Seq<char>,
)
    requires
        call_ensures(InMemoryStore::rooms_with_membership, (&store, user_id, &among), pairs),
    ensures
        (exists|i: int|
            0 <= i < pairs@.len() && (#[trigger] pairs@[i]).0@ == room && pairs@[i].1@ == membership)
            <==> store@.memberships.contains_key(seq![user_id@, room]) && store@.memberships[seq![
            user_id@,
            room,
        ]] == membership && texts(among@).contains(membership),
{
    let place = member_at(user_id@, room);
    if store@.memberships.contains_key(place) && store@.memberships[place] == membership && texts(
        among@,
    ).contains(membership) {
        let i = choose|i: int| 0 <= i < pairs@.len() && (#[trigger] pairs@[i]).0@ == room;
        assert(member_at(user_id@, pairs@[i].0@) == place);
    }
    if exists|i: int|
        0 <= i < pairs@.len() && (#[trigger] pairs@[i]).0@ == room && pairs@[i].1@ == membership {
        let i = choose|i: int|
            0 <= i < pairs@.len() && (#[trigger] pairs@[i]).0@ == room && pairs@[i].1@ == membership;
        assert(member_at(user_id@, pairs@[i].0@) == place);
    }
}

/// A room is of the version that its create event names, or else of version 12.
pub proof fn version_is_the_created(create: StoredModel)
    ensures
        create.json.text_at2("content"@, "room_version"@) matches Some(named) ==> created_version(
            create,
        ) == named,
        create.json.text_at2("content"@, "room_version"@) is None ==> created_version(create)
            == "12"@,
{
}

/// What is no event is not read as one: each event has an identifier, a room, a type and a sender.
pub proof fn only_events_are_read(value: JsonModel)
    ensures
        event_in(value) is Some <==> {
            &&& value.text_at("event_id"@) is Some && valid_event_id(value.text_at("event_id"@)->0)
            &&& value.text_at("room_id"@) is Some && valid_room_id(value.text_at("room_id"@)->0)
            &&& value.text_at("type"@) is Some
            &&& value.text_at("sender"@) is Some && valid_user_id(value.text_at("sender"@)->0)
        },
        event_in(value) matches Some(event) ==> event.json == value && value.text_at("event_id"@)
            == Some(event.event_id) && value.text_at("room_id"@) == Some(event.room_id)
            && value.text_at("type"@) == Some(event.event_type) && value.text_at("sender"@) == Some(
            event.sender,
        ) && value.text_at("state_key"@) == event.state_key,
{
}

/// The last of some stored events is in the state and in the memberships, as any other that is stored.
pub proof fn last_of_many_is_stored(store: StoreModel, events: Seq<StoredModel>, event: StoredModel)
    requires
        event.event_type == "m.room.member"@,
        event.state_key is Some,
        valid_user_id(event.state_key->0),
    ensures
        ({
            let user = event.state_key->0;
            let now = store.with_events(events.push(event));
            let said = event.json.text_at2("content"@, "membership"@);
            &&& now.state.contains_key(seq![event.room_id, "m.room.member"@, user])
            &&& now.state[seq![event.room_id, "m.room.member"@, user]] == event
            &&& said is Some ==> now.memberships.contains_key(seq![user, event.room_id])
                && now.memberships[seq![user, event.room_id]] == said->0
            &&& said is None ==> !now.memberships.contains_key(seq![user, event.room_id])
        }),
{
    let all = events.push(event);
    assert(all.drop_last() =~= events);
    assert(all.last() == event);
    let before = store.with_events(events);
    assert(store.with_events(all) == before.with_event(event, true, true));
    member_event_sets_membership(before, event, event.state_key->0);
    assert(state_at(event.room_id, "m.room.member"@, event.state_key->0) =~= seq![
        event.room_id,
        "m.room.member"@,
        event.state_key->0,
    ]);
}

/// A room is created by its create event alone: it is stored first, the others after it, in order, and
/// the room is known by the version that it names.
pub proof fn created_room_is_stored(
    store: &mut InMemoryStore,
    create_event: StoredEvent,
    initial_events: Vec<StoredEvent>,
    created: Result<(), StorageError>,
    i: int,
)
    requires
        call_ensures(
            InMemoryStore::create_room,
            (store, &create_event, &initial_events),
            created,
        ),
        old(store)@.next_pos + initial_events@.len() < u64::MAX,
        0 <= i < initial_events@.len(),
    ensures
        created is Ok <==> create_event@.event_type == "m.room.create"@,
        created is Err ==> final(store)@ == old(store)@,
        created is Ok ==> {
            let log = final(store)@.events;
            let n = old(store)@.events.len() as int;
            &&& log.len() == n + 1 + initial_events@.len()
            &&& log[n + 1 + i].1 == initial_events@[i]@
        },
{
    if created is Ok {
        let version = created_version(create_event@);
        let known = StoreModel {
            rooms: if valid_room_version(version) {
                old(store)@.rooms.insert(seq![create_event@.room_id], version)
            } else {
                old(store)@.rooms
            },
            ..old(store)@
        };
        events_are_stored_in_order(
            known.with_event(create_event@, true, true),
            stored_models(initial_events@),
            i,
        );
        assert(stored_models(initial_events@)[i] == initial_events@[i]@);
    }
}

/// A room is of a version exactly if it is known, and of the one that it is known by.
pub proof fn version_is_the_known(store: InMemoryStore, room_id: &str, version: Option<String>)
    requires
        call_ensures(InMemoryStore::get_room_version, (&store, room_id), version),
    ensures
        version is Some <==> store@.rooms.contains_key(seq![room_id@]),
        version is Some ==> store@.rooms[seq![room_id@]] == version->0@,
{
}

/// A current state event is the one that is stored under its room, type and key.
pub proof fn state_event_is_the_stored(
    store: InMemoryStore,
    room_id: &str,
    event_type: &str,
    state_key: &str,
    event: Option<StoredEvent>,
)
    requires
        call_ensures(
            InMemoryStore::current_state_event,
            (&store, room_id, event_type, state_key),
            event,
        ),
    ensures
        event is Some <==> store@.state.contains_key(seq![room_id@, event_type@, state_key@]),
        event is Some ==> store@.state[seq![room_id@, event_type@, state_key@]] == event->0@,
{
}

/// A new event is in the log, in the state and in the memberships; one of the past is in the log alone.
pub proof fn stored_new_or_past(
    newer: &mut InMemoryStore,
    older: &mut InMemoryStore,
    event: StoredEvent,
    user: Seq<char>,
)
    requires
        call_ensures(InMemoryStore::persist_event, (newer, &event), ()),
        call_ensures(InMemoryStore::persist_historical_event, (older, &event), ()),
        event@.event_type == "m.room.member"@,
        event@.state_key == Some(user),
        valid_user_id(user),
    ensures
        final(newer)@.events.len() == old(newer)@.events.len() + 1,
        final(newer)@.events.last().1 == event@,
        final(newer)@.state.contains_key(seq![event@.room_id, "m.room.member"@, user]),
        final(newer)@.state[seq![event@.room_id, "m.room.member"@, user]] == event@,
        event@.json.text_at2("content"@, "membership"@) matches Some(said) ==> final(
            newer
        )@.memberships[seq![user, event@.room_id]] == said,
        final(older)@.events.len() == old(older)@.events.len() + 1,
        final(older)@.events.last().1 == event@,
        final(older)@.state == old(older)@.state,
        final(older)@.memberships == old(older)@.memberships,
        final(older)@.rooms == old(older)@.rooms,
{
    member_event_sets_membership(old(newer)@, event@, user);
    assert(state_at(event@.room_id, "m.room.member"@, user) =~= seq![
        event@.room_id,
        "m.room.member"@,
        user,
    ]);
}

/// An event that can be read is stored under its identifier; anything else changes nothing.
pub proof fn read_event_is_stored(store: &mut InMemoryStore, value: Json, event_id: Option<String>)
    requires
        call_ensures(InMemoryStore::insert_event_from_json, (store, &value), event_id),
    ensures
        event_id is None ==> final(store)@ == old(store)@,
        event_id matches Some(id) ==> {
            &&& value.model().text_at("event_id"@) == Some(id@)
            &&& final(store)@.events.len() == old(store)@.events.len() + 1
            &&& final(store)@.events.last().1.event_id == id@
            &&& final(store)@.events.last().1.json == value.model()
        },
        event_id is None ==> event_in(value.model()) is None,
{
    only_events_are_read(value.model());
}

} // verus!
