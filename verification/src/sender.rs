//! Outbound federation delivery: what the task of each destination does next.
//!
//! A task drains one destination: it delivers the pending events in batches, in the order in
//! which they were stored, then pays any advertisement of heads that it owes, then idles until
//! something is stored. Reading, sending and waiting are done outside; what came of each is
//! handed to [`DestinationTask::step`], which decides what is done next.
//!
//! - A 2xx answer removes the batch from the outbox, and settles the advertisement for the rooms
//!   whose heads the transaction carried.
//! - A 4xx answer drops the batch: the peer rejected the envelope, and sending it again cannot
//!   help. The advertisement is still owed.
//! - What is owed for a room without heads is cleared before anything is advertised, so that it
//!   cannot hold up the rest.
//! - Anything else is transient: the same transaction, under the same identifier, is sent again
//!   after a wait.

use vstd::prelude::*;
use vstd::seq_lib::lemma_seq_contains_after_push;

use crate::backoff::{after_wait, ceiling_after_wait, BACKOFF_BASE, BACKOFF_CAP};
use crate::event::{
    advertisement, event_models, Event, EventModel, ForwardExtremities, Heads,
};
use crate::text::texts;
use crate::textset::{rising, TextSet};

verus! {

/// The most events that one transaction carries. An inbound transaction with more is refused;
/// the outbound sender reads no more at a time.
pub const MAX_PDUS_PER_TXN: usize = 50;

/// What a transaction is sent for.
#[derive(Debug, Clone, Copy, PartialEq, Eq, Structural)]
pub enum Purpose {
    /// To deliver events of the outbox.
    Batch,
    /// To advertise heads, with no events.
    Advertisement,
}

/// What a transaction carries.
#[derive(Debug, PartialEq, Eq)]
pub struct Payload {
    pub purpose: Purpose,
    /// The events, as they travel.
    pub pdus: Vec<String>,
    /// The identifiers of the events.
    pub event_ids: Vec<String>,
    /// The rooms that the heads are of.
    pub rooms: Vec<String>,
    /// The heads of those rooms.
    pub heads: Vec<(String, ForwardExtremities)>,
}

/// A transaction: a payload under an identifier that it keeps however often it is sent.
#[derive(Debug, PartialEq, Eq)]
pub struct Transaction {
    pub txn_id: String,
    pub payload: Payload,
}

/// What a task is doing.
#[derive(Debug, PartialEq, Eq)]
pub enum Phase {
    /// Reading the pending events of the destination.
    ReadPdus,
    /// Reading the heads of the rooms of a batch.
    ReadBatchHeads { batch: Vec<Event>, rooms: Vec<String> },
    /// Reading which rooms an advertisement is owed for.
    ReadOwed,
    /// Reading the heads of the rooms that are owed.
    ReadOwedHeads { owed: Vec<String>, rooms: Vec<String> },
    /// Clearing all that is owed, where no room that it is owed for has heads.
    ClearJunk { owed: Vec<String> },
    /// Clearing what is owed for rooms that have no heads, before the others are advertised. Where
    /// the store fails at it, the others are advertised all the same, and what is left over is read
    /// and cleared on a later pass.
    ClearHeadless { rooms: Vec<String>, payload: Payload },
    /// Getting a transaction identifier.
    Name { payload: Payload },
    /// Sending.
    Send { txn: Transaction },
    /// Removing a batch that the peer rejected.
    DropBatch { txn: Transaction },
    /// Removing a batch that the peer accepted.
    RemoveBatch { txn: Transaction, peer: Vec<(String, ForwardExtremities)> },
    /// Clearing what was owed for the rooms whose heads a delivered batch carried.
    ClearCovered { rooms: Vec<String>, peer: Vec<(String, ForwardExtremities)> },
    /// Clearing what was owed for the rooms of a rejected advertisement.
    ClearRejected { txn: Transaction },
    /// Clearing what was owed for the rooms of an accepted advertisement.
    ClearDelivered { txn: Transaction, peer: Vec<(String, ForwardExtremities)> },
    /// Waiting before reading again.
    WaitToRead,
    /// Waiting before sending the same transaction again.
    WaitToSend { txn: Transaction },
    /// Idle until something is stored.
    Idle,
    /// Stopped.
    Stopped,
}

/// What came of what a task was doing.
#[derive(Debug, PartialEq, Eq)]
pub enum Outcome {
    /// The pending events.
    Pdus(Vec<Event>),
    /// The rooms that are owed an advertisement.
    Owed(Vec<String>),
    /// The heads of some rooms, one for each.
    Heads(Vec<ForwardExtremities>),
    /// A transaction identifier.
    Named(String),
    /// A 2xx answer, with the heads that the peer advertised.
    Delivered(Vec<(String, ForwardExtremities)>),
    /// An answer with any other status.
    Status(u16),
    /// No answer.
    Unreachable,
    /// No send slot will be given any more.
    NoSlot,
    /// What was asked of the store was done.
    Done,
    /// The store failed.
    Fault,
    /// The wait is over, or a kick cut it short.
    Woken { kicked: bool },
    /// Something was stored.
    Stored,
    /// The store is gone.
    StoreGone,
}

/// What a task needs done.
#[derive(Debug, PartialEq, Eq)]
pub enum Action<'a> {
    /// Read pending events, no more than this many.
    ReadPdus(usize),
    /// Read the heads of these rooms.
    ReadHeads(&'a Vec<String>),
    /// Read the rooms that are owed an advertisement.
    ReadOwed,
    /// Make a transaction identifier.
    Name,
    /// Send this transaction.
    Send(&'a Transaction),
    /// Remove these events from the outbox.
    RemovePdus(&'a Vec<String>),
    /// Clear the advertisements owed for these rooms.
    ClearOwed(&'a Vec<String>),
    /// Wait a random time up to this many milliseconds, or for a kick.
    Wait(u64),
    /// Wait until something is stored.
    AwaitStored,
    /// Nothing more.
    Stop,
}

/// The task of a destination.
#[derive(Debug, PartialEq, Eq)]
pub struct DestinationTask {
    pub phase: Phase,
    /// The ceiling of the next wait, in milliseconds.
    pub backoff: u64,
}

/// The rooms of some events.
pub open spec fn rooms_of(events: Seq<EventModel>) -> Set<Seq<char>> {
    Set::new(|room: Seq<char>| exists|i: int| 0 <= i < events.len() && (#[trigger] events[i]).room_id == room)
}

/// The rooms that have heads, with their heads.
pub open spec fn with_heads(rooms: Seq<Seq<char>>, heads: Seq<Heads>) -> Seq<(Seq<char>, Heads)>
    decreases rooms.len(),
{
    if rooms.len() == 0 || rooms.len() != heads.len() {
        Seq::empty()
    } else {
        let before = with_heads(rooms.drop_last(), heads.drop_last());
        if heads.last().is_empty() {
            before
        } else {
            before.push((rooms.last(), heads.last()))
        }
    }
}

/// The rooms that have no heads.
pub open spec fn without_heads(rooms: Seq<Seq<char>>, heads: Seq<Heads>) -> Seq<Seq<char>>
    decreases rooms.len(),
{
    if rooms.len() == 0 || rooms.len() != heads.len() {
        Seq::empty()
    } else {
        let before = without_heads(rooms.drop_last(), heads.drop_last());
        if heads.last().is_empty() {
            before.push(rooms.last())
        } else {
            before
        }
    }
}

/// The rooms of an advertisement.
pub open spec fn advertised_rooms(heads: Seq<(Seq<char>, Heads)>) -> Seq<Seq<char>> {
    heads.map_values(|h: (Seq<char>, Heads)| h.0)
}

/// The heads in a list.
pub open spec fn heads_of(items: Seq<ForwardExtremities>) -> Seq<Heads> {
    items.map_values(|f: ForwardExtremities| f@)
}

/// Whether a status says that the peer rejected the transaction as such.
pub open spec fn rejection(status: u16) -> bool {
    400 <= status < 500
}

impl Payload {
    /// The payload names the rooms whose heads it carries, and an advertisement has no events.
    pub open spec fn wf(self) -> bool {
        &&& texts(self.rooms@) == advertised_rooms(advertisement(self.heads@))
        &&& self.pdus@.len() == self.event_ids@.len()
        &&& self.purpose == Purpose::Advertisement ==> self.pdus@.len() == 0
        &&& self.purpose == Purpose::Advertisement ==> self.heads@.len() > 0
    }

    /// The payload that delivers a batch, with the heads of its rooms.
    pub open spec fn delivers(
        self,
        batch: Seq<EventModel>,
        heads: Seq<(Seq<char>, Heads)>,
    ) -> bool {
        &&& self.wf()
        &&& self.purpose == Purpose::Batch
        &&& texts(self.pdus@) == batch.map_values(|e: EventModel| e.raw)
        &&& texts(self.event_ids@) == batch.map_values(|e: EventModel| e.event_id)
        &&& advertisement(self.heads@) == heads
    }

    /// The payload that advertises heads.
    pub open spec fn advertises(self, heads: Seq<(Seq<char>, Heads)>) -> bool {
        &&& self.wf()
        &&& self.purpose == Purpose::Advertisement
        &&& advertisement(self.heads@) == heads
    }
}

impl Phase {
    /// The transaction under way.
    pub open spec fn transaction(self) -> Option<Transaction> {
        match self {
            Phase::Send { txn } => Some(txn),
            Phase::DropBatch { txn } => Some(txn),
            Phase::RemoveBatch { txn, .. } => Some(txn),
            Phase::ClearRejected { txn } => Some(txn),
            Phase::ClearDelivered { txn, .. } => Some(txn),
            Phase::WaitToSend { txn } => Some(txn),
            _ => None,
        }
    }

    /// The transaction whose events are being removed from the outbox.
    pub open spec fn removing(self) -> Option<Transaction> {
        match self {
            Phase::DropBatch { txn } => Some(txn),
            Phase::RemoveBatch { txn, .. } => Some(txn),
            _ => None,
        }
    }

    /// The rooms for which owed advertisements are being cleared.
    pub open spec fn clearing(self) -> Option<Seq<Seq<char>>> {
        match self {
            Phase::ClearJunk { owed } => Some(texts(owed@)),
            Phase::ClearHeadless { rooms, .. } => Some(texts(rooms@)),
            Phase::ClearCovered { rooms, .. } => Some(texts(rooms@)),
            Phase::ClearRejected { txn } => Some(texts(txn.payload.rooms@)),
            Phase::ClearDelivered { txn, .. } => Some(texts(txn.payload.rooms@)),
            _ => None,
        }
    }

    /// What a phase holds is well formed, and a phase for one purpose holds that purpose.
    pub open spec fn wf(self) -> bool {
        &&& self matches Phase::ReadBatchHeads { batch, rooms } ==> rising(texts(rooms@)) && texts(
            rooms@,
        ).to_set() == rooms_of(event_models(batch@))
        &&& self matches Phase::ReadOwedHeads { owed, rooms } ==> rising(texts(rooms@)) && texts(
            rooms@,
        ).to_set() == texts(owed@).to_set()
        &&& self matches Phase::Name { payload } ==> payload.wf()
        &&& self matches Phase::ClearHeadless { payload, .. } ==> payload.wf()
        &&& self.transaction() matches Some(txn) ==> txn.payload.wf()
        &&& self matches Phase::DropBatch { txn } ==> txn.payload.purpose == Purpose::Batch
        &&& self matches Phase::RemoveBatch { txn, .. } ==> txn.payload.purpose == Purpose::Batch
        &&& self matches Phase::ClearRejected { txn } ==> txn.payload.purpose
            == Purpose::Advertisement
        &&& self matches Phase::ClearDelivered { txn, .. } ==> txn.payload.purpose
            == Purpose::Advertisement
    }

    /// Whether an outcome answers what is done in this phase.
    pub open spec fn expects(self, outcome: Outcome) -> bool {
        match self {
            Phase::ReadPdus => outcome is Pdus || outcome is Fault,
            Phase::ReadBatchHeads { rooms, .. } => outcome matches Outcome::Heads(heads)
                && heads@.len() == rooms@.len(),
            Phase::ReadOwed => outcome is Owed || outcome is Fault,
            Phase::ReadOwedHeads { rooms, .. } => outcome matches Outcome::Heads(heads)
                && heads@.len() == rooms@.len(),
            Phase::Name { .. } => outcome is Named,
            Phase::Send { .. } => outcome is Delivered || outcome is Status || outcome is Unreachable
                || outcome is NoSlot,
            Phase::ClearJunk { .. } | Phase::ClearHeadless { .. } => outcome is Done || outcome is Fault,
            Phase::DropBatch { .. } | Phase::RemoveBatch { .. } | Phase::ClearCovered {
                ..
            } | Phase::ClearRejected { .. } | Phase::ClearDelivered { .. } => outcome is Done
                || outcome is Fault,
            Phase::WaitToRead | Phase::WaitToSend { .. } => outcome is Woken,
            Phase::Idle => outcome is Stored || outcome is StoreGone,
            Phase::Stopped => false,
        }
    }
}

impl DestinationTask {
    /// The task is well formed: its phase is, and its ceiling lies between the floor and the cap.
    pub open spec fn wf(self) -> bool {
        self.phase.wf() && BACKOFF_BASE <= self.backoff <= BACKOFF_CAP
    }

    /// Reading again from the start, with the ceiling back at the floor.
    pub open spec fn is_fresh(self) -> bool {
        self.phase is ReadPdus && self.backoff == BACKOFF_BASE
    }

    /// How an outcome takes one task state to the next, and which of the heads that the peer
    /// advertised are to be reconciled.
    pub open spec fn follows(
        before: DestinationTask,
        outcome: Outcome,
        after: DestinationTask,
        reconcile: Seq<(Seq<char>, Heads)>,
    ) -> bool {
        let none = Seq::<(Seq<char>, Heads)>::empty();
        let same = after.backoff == before.backoff && reconcile == none;
        match (before.phase, outcome) {
            (Phase::ReadPdus, Outcome::Pdus(batch)) => same && if batch@.len() == 0 {
                after.phase is ReadOwed
            } else {
                after.phase matches Phase::ReadBatchHeads { batch: kept, .. } && kept == batch
            },
            (Phase::ReadPdus, Outcome::Fault) => same && after.phase is WaitToRead,
            (Phase::ReadBatchHeads { batch, rooms }, Outcome::Heads(heads)) if heads@.len()
                == rooms@.len() => same && (after.phase matches Phase::Name { payload }
                && payload.delivers(
                event_models(batch@),
                with_heads(texts(rooms@), heads_of(heads@)),
            )),
            (Phase::ReadOwed, Outcome::Owed(owed)) => if owed@.len() == 0 {
                after.phase is Idle && after.backoff == BACKOFF_BASE && reconcile == none
            } else {
                same && (after.phase matches Phase::ReadOwedHeads { owed: kept, .. } && kept == owed)
            },
            (Phase::ReadOwed, Outcome::Fault) => same && after.phase is WaitToRead,
            (Phase::ReadOwedHeads { owed, rooms }, Outcome::Heads(heads)) if heads@.len()
                == rooms@.len() => {
                let ours = with_heads(texts(rooms@), heads_of(heads@));
                let headless = without_heads(texts(rooms@), heads_of(heads@));
                same && if ours.len() == 0 {
                    after.phase == (Phase::ClearJunk { owed })
                } else if headless.len() == 0 {
                    after.phase matches Phase::Name { payload } && payload.advertises(ours)
                } else {
                    after.phase matches Phase::ClearHeadless { rooms: cleared, payload } && texts(
                        cleared@,
                    ) == headless && payload.advertises(ours)
                }
            },
            (Phase::ClearHeadless { payload, .. }, Outcome::Done | Outcome::Fault) => same
                && after.phase == (Phase::Name { payload }),
            (Phase::ClearJunk { .. }, Outcome::Done | Outcome::Fault) => after.is_fresh()
                && reconcile == none,
            (Phase::Name { payload }, Outcome::Named(txn_id)) => same && after.phase == (Phase::Send {
                txn: Transaction { txn_id, payload },
            }),
            (Phase::Send { txn }, Outcome::Delivered(peer)) => same && match txn.payload.purpose {
                Purpose::Batch => after.phase == (Phase::RemoveBatch { txn, peer }),
                Purpose::Advertisement => after.phase == (Phase::ClearDelivered { txn, peer }),
            },
            (Phase::Send { txn }, Outcome::Status(status)) => same && if rejection(status) {
                match txn.payload.purpose {
                    Purpose::Batch => after.phase == (Phase::DropBatch { txn }),
                    Purpose::Advertisement => after.phase == (Phase::ClearRejected { txn }),
                }
            } else {
                after.phase == (Phase::WaitToSend { txn })
            },
            (Phase::Send { txn }, Outcome::Unreachable) => same && after.phase
                == (Phase::WaitToSend { txn }),
            (Phase::Send { .. }, Outcome::NoSlot) => same && after.phase is Stopped,
            (Phase::DropBatch { .. }, Outcome::Done) => after.is_fresh() && reconcile == none,
            (Phase::DropBatch { txn }, Outcome::Fault) => same && after.phase
                == (Phase::WaitToSend { txn }),
            (Phase::RemoveBatch { txn, peer }, Outcome::Done) => if txn.payload.heads@.len() == 0 {
                after.is_fresh() && reconcile == advertisement(peer@)
            } else {
                same && after.phase == (Phase::ClearCovered { rooms: txn.payload.rooms, peer })
            },
            (Phase::RemoveBatch { txn, .. }, Outcome::Fault) => same && after.phase
                == (Phase::WaitToSend { txn }),
            (Phase::ClearCovered { peer, .. }, Outcome::Done | Outcome::Fault) => after.is_fresh()
                && reconcile == advertisement(peer@),
            (Phase::ClearRejected { .. }, Outcome::Done | Outcome::Fault) => after.is_fresh()
                && reconcile == none,
            (Phase::ClearDelivered { peer, .. }, Outcome::Done) => after.is_fresh() && reconcile
                == advertisement(peer@),
            (Phase::ClearDelivered { txn, .. }, Outcome::Fault) => same && after.phase
                == (Phase::WaitToSend { txn }),
            (Phase::WaitToRead, Outcome::Woken { kicked }) => after.phase is ReadPdus
                && after.backoff == ceiling_after_wait(before.backoff as int, kicked) && reconcile
                == none,
            (Phase::WaitToSend { txn }, Outcome::Woken { kicked }) => after.phase == (Phase::Send {
                txn,
            }) && after.backoff == ceiling_after_wait(before.backoff as int, kicked) && reconcile
                == none,
            (Phase::Idle, Outcome::Stored) => same && after.phase is ReadPdus,
            (Phase::Idle, Outcome::StoreGone) => same && after.phase is Stopped,
            _ => same && after.phase == before.phase,
        }
    }

    /// A task that begins to drain its destination.
    pub fn start() -> (task: DestinationTask)
        ensures
            task.wf(),
            task.is_fresh(),
    {
        DestinationTask { phase: Phase::ReadPdus, backoff: BACKOFF_BASE }
    }

    /// What the task needs done now.
    pub fn action(&self) -> (action: Action<'_>)
        ensures
            match self.phase {
                Phase::ReadPdus => action == Action::ReadPdus(MAX_PDUS_PER_TXN),
                Phase::ReadBatchHeads { rooms, .. } => action == Action::ReadHeads(&rooms),
                Phase::ReadOwed => action is ReadOwed,
                Phase::ReadOwedHeads { rooms, .. } => action == Action::ReadHeads(&rooms),
                Phase::ClearJunk { owed } => action == Action::ClearOwed(&owed),
                Phase::ClearHeadless { rooms, .. } => action == Action::ClearOwed(&rooms),
                Phase::Name { .. } => action is Name,
                Phase::Send { txn } => action == Action::Send(&txn),
                Phase::DropBatch { txn } => action == Action::RemovePdus(&txn.payload.event_ids),
                Phase::RemoveBatch { txn, .. } => action == Action::RemovePdus(
                    &txn.payload.event_ids,
                ),
                Phase::ClearCovered { rooms, .. } => action == Action::ClearOwed(&rooms),
                Phase::ClearRejected { txn } => action == Action::ClearOwed(&txn.payload.rooms),
                Phase::ClearDelivered { txn, .. } => action == Action::ClearOwed(
                    &txn.payload.rooms,
                ),
                Phase::WaitToRead => action == Action::Wait(self.backoff),
                Phase::WaitToSend { .. } => action == Action::Wait(self.backoff),
                Phase::Idle => action is AwaitStored,
                Phase::Stopped => action is Stop,
            },
    {
        match &self.phase {
            Phase::ReadPdus => Action::ReadPdus(MAX_PDUS_PER_TXN),
            Phase::ReadBatchHeads { rooms, .. } => Action::ReadHeads(rooms),
            Phase::ReadOwed => Action::ReadOwed,
            Phase::ReadOwedHeads { rooms, .. } => Action::ReadHeads(rooms),
            Phase::ClearJunk { owed } => Action::ClearOwed(owed),
            Phase::ClearHeadless { rooms, .. } => Action::ClearOwed(rooms),
            Phase::Name { .. } => Action::Name,
            Phase::Send { txn } => Action::Send(txn),
            Phase::DropBatch { txn } => Action::RemovePdus(&txn.payload.event_ids),
            Phase::RemoveBatch { txn, .. } => Action::RemovePdus(&txn.payload.event_ids),
            Phase::ClearCovered { rooms, .. } => Action::ClearOwed(rooms),
            Phase::ClearRejected { txn } => Action::ClearOwed(&txn.payload.rooms),
            Phase::ClearDelivered { txn, .. } => Action::ClearOwed(&txn.payload.rooms),
            Phase::WaitToRead => Action::Wait(self.backoff),
            Phase::WaitToSend { .. } => Action::Wait(self.backoff),
            Phase::Idle => Action::AwaitStored,
            Phase::Stopped => Action::Stop,
        }
    }
}

/// The rooms of a batch, in order.
fn batch_rooms(batch: &Vec<Event>) -> (rooms: Vec<String>)
    ensures
        rising(texts(rooms@)),
        texts(rooms@).to_set() == rooms_of(event_models(batch@)),
{
    let ghost all = event_models(batch@);
    let mut set = TextSet::new();
    let mut i: usize = 0;
    assert(set@ =~= rooms_of(all.take(0)));
    while i < batch.len()
        invariant
            i <= batch.len(),
            all == event_models(batch@),
            set@ == rooms_of(all.take(i as int)),
        decreases batch.len() - i,
    {
        let ghost before = all.take(i as int);
        let (bigger, _) = set.insert(batch[i].room_id.clone());
        set = bigger;
        proof {
            let next = all.take(i + 1);
            assert forall|room: Seq<char>| set@.contains(room) == rooms_of(next).contains(room) by {
                if rooms_of(before).contains(room) {
                    let k = choose|k: int| 0 <= k < before.len() && (#[trigger] before[k]).room_id == room;
                    assert(next[k].room_id == room);
                }
                if rooms_of(next).contains(room) {
                    let k = choose|k: int| 0 <= k < next.len() && (#[trigger] next[k]).room_id == room;
                    if k < i {
                        assert(before[k].room_id == room);
                    }
                }
                assert(next[i as int].room_id == batch@[i as int].room_id@);
            }
            assert(set@ =~= rooms_of(next));
        }
        i += 1;
    }
    assert(all.take(i as int) =~= all);
    set.into_items()
}

/// The rooms that have heads, and those heads.
pub(crate) fn pair_heads(rooms: &Vec<String>, heads: &Vec<ForwardExtremities>) -> (ours: (
    Vec<String>,
    Vec<(String, ForwardExtremities)>,
))
    requires
        rooms.len() == heads.len(),
    ensures
        advertisement(ours.1@) == with_heads(texts(rooms@), heads_of(heads@)),
        texts(ours.0@) == advertised_rooms(advertisement(ours.1@)),
{
    let ghost names = texts(rooms@);
    let ghost all = heads_of(heads@);
    let mut named: Vec<String> = Vec::new();
    let mut paired: Vec<(String, ForwardExtremities)> = Vec::new();
    let mut i: usize = 0;
    assert(advertisement(paired@) =~= Seq::empty());
    assert(texts(named@) =~= advertised_rooms(advertisement(paired@)));
    while i < rooms.len()
        invariant
            i <= rooms.len() == heads.len(),
            names == texts(rooms@),
            all == heads_of(heads@),
            advertisement(paired@) == with_heads(names.take(i as int), all.take(i as int)),
            texts(named@) == advertised_rooms(advertisement(paired@)),
        decreases rooms.len() - i,
    {
        proof {
            assert(names.take(i + 1).drop_last() =~= names.take(i as int));
            assert(all.take(i + 1).drop_last() =~= all.take(i as int));
        }
        if !heads[i].is_empty() {
            let ghost before = paired@;
            let ghost named_before = named@;
            named.push(rooms[i].clone());
            paired.push((rooms[i].clone(), heads[i].copy()));
            assert(advertisement(paired@) =~= advertisement(before).push(
                (names[i as int], all[i as int]),
            ));
            assert(texts(named@) =~= texts(named_before).push(names[i as int]));
            assert(advertised_rooms(advertisement(paired@)) =~= advertised_rooms(
                advertisement(before),
            ).push(names[i as int]));
        }
        i += 1;
    }
    assert(names.take(i as int) =~= names);
    assert(all.take(i as int) =~= all);
    (named, paired)
}

/// The rooms that have no heads.
fn headless_rooms(rooms: &Vec<String>, heads: &Vec<ForwardExtremities>) -> (headless: Vec<String>)
    requires
        rooms.len() == heads.len(),
    ensures
        texts(headless@) == without_heads(texts(rooms@), heads_of(heads@)),
{
    let ghost names = texts(rooms@);
    let ghost all = heads_of(heads@);
    let mut headless: Vec<String> = Vec::new();
    let mut i: usize = 0;
    assert(texts(headless@) =~= Seq::empty());
    while i < rooms.len()
        invariant
            i <= rooms.len() == heads.len(),
            names == texts(rooms@),
            all == heads_of(heads@),
            texts(headless@) == without_heads(names.take(i as int), all.take(i as int)),
        decreases rooms.len() - i,
    {
        proof {
            assert(names.take(i + 1).drop_last() =~= names.take(i as int));
            assert(all.take(i + 1).drop_last() =~= all.take(i as int));
        }
        if heads[i].is_empty() {
            let ghost before = headless@;
            headless.push(rooms[i].clone());
            assert(texts(headless@) =~= texts(before).push(names[i as int]));
        }
        i += 1;
    }
    assert(names.take(i as int) =~= names);
    assert(all.take(i as int) =~= all);
    headless
}

/// The payload that delivers a batch.
fn batch_payload(batch: &Vec<Event>, rooms: &Vec<String>, heads: &Vec<ForwardExtremities>) -> (payload:
    Payload)
    requires
        rooms.len() == heads.len(),
    ensures
        payload.delivers(event_models(batch@), with_heads(texts(rooms@), heads_of(heads@))),
{
    let ghost all = event_models(batch@);
    let mut pdus: Vec<String> = Vec::new();
    let mut event_ids: Vec<String> = Vec::new();
    let mut i: usize = 0;
    while i < batch.len()
        invariant
            i <= batch.len(),
            all == event_models(batch@),
            pdus.len() == i,
            event_ids.len() == i,
            forall|k: int| 0 <= k < i ==> (#[trigger] pdus@[k])@ == all[k].raw,
            forall|k: int| 0 <= k < i ==> (#[trigger] event_ids@[k])@ == all[k].event_id,
        decreases batch.len() - i,
    {
        pdus.push(batch[i].raw.clone());
        event_ids.push(batch[i].event_id.clone());
        i += 1;
    }
    assert(texts(pdus@) =~= all.map_values(|e: EventModel| e.raw));
    assert(texts(event_ids@) =~= all.map_values(|e: EventModel| e.event_id));
    let (named, paired) = pair_heads(rooms, heads);
    Payload { purpose: Purpose::Batch, pdus, event_ids, rooms: named, heads: paired }
}

impl DestinationTask {
    fn to(phase: Phase, backoff: u64) -> (stepped: (
        DestinationTask,
        Vec<(String, ForwardExtremities)>,
    ))
        ensures
            stepped.0 == (DestinationTask { phase, backoff }),
            advertisement(stepped.1@) == Seq::<(Seq<char>, Heads)>::empty(),
    {
        let none: Vec<(String, ForwardExtremities)> = Vec::new();
        assert(advertisement(none@) =~= Seq::<(Seq<char>, Heads)>::empty());
        (DestinationTask { phase, backoff }, none)
    }

    /// Takes the task on from what came of what it was doing. Also gives the rooms, with the
    /// heads that the peer advertised, that are to be reconciled now. An outcome that answers
    /// nothing the task asked for leaves it as it is.
    pub fn step(self, outcome: Outcome) -> (stepped: (
        DestinationTask,
        Vec<(String, ForwardExtremities)>,
    ))
        requires
            self.wf(),
        ensures
            stepped.0.wf(),
            DestinationTask::follows(self, outcome, stepped.0, advertisement(stepped.1@)),
    {
        let backoff = self.backoff;
        match (self.phase, outcome) {
            (Phase::ReadPdus, Outcome::Pdus(batch)) => {
                if batch.len() == 0 {
                    DestinationTask::to(Phase::ReadOwed, backoff)
                } else {
                    let rooms = batch_rooms(&batch);
                    DestinationTask::to(Phase::ReadBatchHeads { batch, rooms }, backoff)
                }
            },
            (Phase::ReadPdus, Outcome::Fault) => DestinationTask::to(Phase::WaitToRead, backoff),
            (Phase::ReadBatchHeads { batch, rooms }, Outcome::Heads(heads)) => {
                if heads.len() == rooms.len() {
                    let payload = batch_payload(&batch, &rooms, &heads);
                    DestinationTask::to(Phase::Name { payload }, backoff)
                } else {
                    DestinationTask::to(Phase::ReadBatchHeads { batch, rooms }, backoff)
                }
            },
            (Phase::ReadOwed, Outcome::Owed(owed)) => {
                if owed.len() == 0 {
                    DestinationTask::to(Phase::Idle, BACKOFF_BASE)
                } else {
                    let rooms = TextSet::from_items(&owed).into_items();
                    DestinationTask::to(Phase::ReadOwedHeads { owed, rooms }, backoff)
                }
            },
            (Phase::ReadOwed, Outcome::Fault) => DestinationTask::to(Phase::WaitToRead, backoff),
            (Phase::ReadOwedHeads { owed, rooms }, Outcome::Heads(heads)) => {
                if heads.len() != rooms.len() {
                    return DestinationTask::to(Phase::ReadOwedHeads { owed, rooms }, backoff);
                }
                let (named, paired) = pair_heads(&rooms, &heads);
                assert(advertisement(paired@).len() == paired@.len());
                if paired.len() == 0 {
                    DestinationTask::to(Phase::ClearJunk { owed }, backoff)
                } else {
                    let payload = Payload {
                        purpose: Purpose::Advertisement,
                        pdus: Vec::new(),
                        event_ids: Vec::new(),
                        rooms: named,
                        heads: paired,
                    };
                    let headless = headless_rooms(&rooms, &heads);
                    assert(texts(headless@).len() == headless@.len());
                    if headless.len() == 0 {
                        DestinationTask::to(Phase::Name { payload }, backoff)
                    } else {
                        DestinationTask::to(
                            Phase::ClearHeadless { rooms: headless, payload },
                            backoff,
                        )
                    }
                }
            },
            (Phase::ClearHeadless { payload, .. }, Outcome::Done) => DestinationTask::to(
                Phase::Name { payload },
                backoff,
            ),
            (Phase::ClearHeadless { payload, .. }, Outcome::Fault) => DestinationTask::to(
                Phase::Name { payload },
                backoff,
            ),
            (Phase::ClearJunk { .. }, Outcome::Done) => DestinationTask::to(
                Phase::ReadPdus,
                BACKOFF_BASE,
            ),
            (Phase::ClearJunk { .. }, Outcome::Fault) => DestinationTask::to(
                Phase::ReadPdus,
                BACKOFF_BASE,
            ),
            (Phase::Name { payload }, Outcome::Named(txn_id)) => DestinationTask::to(
                Phase::Send { txn: Transaction { txn_id, payload } },
                backoff,
            ),
            (Phase::Send { txn }, Outcome::Delivered(peer)) => match txn.payload.purpose {
                Purpose::Batch => DestinationTask::to(Phase::RemoveBatch { txn, peer }, backoff),
                Purpose::Advertisement => DestinationTask::to(
                    Phase::ClearDelivered { txn, peer },
                    backoff,
                ),
            },
            (Phase::Send { txn }, Outcome::Status(status)) => {
                if 400 <= status && status < 500 {
                    match txn.payload.purpose {
                        Purpose::Batch => DestinationTask::to(Phase::DropBatch { txn }, backoff),
                        Purpose::Advertisement => DestinationTask::to(
                            Phase::ClearRejected { txn },
                            backoff,
                        ),
                    }
                } else {
                    DestinationTask::to(Phase::WaitToSend { txn }, backoff)
                }
            },
            (Phase::Send { txn }, Outcome::Unreachable) => DestinationTask::to(
                Phase::WaitToSend { txn },
                backoff,
            ),
            (Phase::Send { .. }, Outcome::NoSlot) => DestinationTask::to(Phase::Stopped, backoff),
            (Phase::DropBatch { .. }, Outcome::Done) => DestinationTask::to(
                Phase::ReadPdus,
                BACKOFF_BASE,
            ),
            (Phase::DropBatch { txn }, Outcome::Fault) => DestinationTask::to(
                Phase::WaitToSend { txn },
                backoff,
            ),
            (Phase::RemoveBatch { txn, peer }, Outcome::Done) => {
                if txn.payload.heads.len() == 0 {
                    (DestinationTask { phase: Phase::ReadPdus, backoff: BACKOFF_BASE }, peer)
                } else {
                    DestinationTask::to(
                        Phase::ClearCovered { rooms: txn.payload.rooms, peer },
                        backoff,
                    )
                }
            },
            (Phase::RemoveBatch { txn, .. }, Outcome::Fault) => DestinationTask::to(
                Phase::WaitToSend { txn },
                backoff,
            ),
            (Phase::ClearCovered { peer, .. }, Outcome::Done) => (
                DestinationTask { phase: Phase::ReadPdus, backoff: BACKOFF_BASE },
                peer,
            ),
            (Phase::ClearCovered { peer, .. }, Outcome::Fault) => (
                DestinationTask { phase: Phase::ReadPdus, backoff: BACKOFF_BASE },
                peer,
            ),
            (Phase::ClearRejected { .. }, Outcome::Done) => DestinationTask::to(
                Phase::ReadPdus,
                BACKOFF_BASE,
            ),
            (Phase::ClearRejected { .. }, Outcome::Fault) => DestinationTask::to(
                Phase::ReadPdus,
                BACKOFF_BASE,
            ),
            (Phase::ClearDelivered { peer, .. }, Outcome::Done) => (
                DestinationTask { phase: Phase::ReadPdus, backoff: BACKOFF_BASE },
                peer,
            ),
            (Phase::ClearDelivered { txn, .. }, Outcome::Fault) => DestinationTask::to(
                Phase::WaitToSend { txn },
                backoff,
            ),
            (Phase::WaitToRead, Outcome::Woken { kicked }) => DestinationTask::to(
                Phase::ReadPdus,
                after_wait(backoff, kicked),
            ),
            (Phase::WaitToSend { txn }, Outcome::Woken { kicked }) => DestinationTask::to(
                Phase::Send { txn },
                after_wait(backoff, kicked),
            ),
            (Phase::Idle, Outcome::Stored) => DestinationTask::to(Phase::ReadPdus, backoff),
            (Phase::Idle, Outcome::StoreGone) => DestinationTask::to(Phase::Stopped, backoff),
            (phase, _) => DestinationTask::to(phase, backoff),
        }
    }
}

/// A run of a task: the states it goes through, and what came of what it did in each of them.
pub open spec fn is_run(states: Seq<DestinationTask>, outcomes: Seq<Outcome>) -> bool {
    &&& states.len() == outcomes.len() + 1
    &&& states[0].wf() && states[0].is_fresh()
    &&& forall|i: int|
        0 <= i < outcomes.len() ==> is_step(states[i], #[trigger] outcomes[i], states[i + 1])
}

/// Whether an outcome takes one state to another, whatever is to be reconciled.
pub open spec fn is_step(before: DestinationTask, outcome: Outcome, after: DestinationTask) -> bool {
    exists|reconcile: Seq<(Seq<char>, Heads)>|
        #[trigger] DestinationTask::follows(before, outcome, after, reconcile)
}

/// Whether the transaction of a sending state was answered for good: 2xx, or 4xx.
pub open spec fn answered(state: DestinationTask, outcome: Outcome, txn: Transaction) -> bool {
    &&& state.phase == (Phase::Send { txn })
    &&& (outcome is Delivered || (outcome matches Outcome::Status(status) && 400 <= status < 500))
}

/// Events leave the outbox only after an answer: whenever a run removes the events of a
/// transaction, that transaction, with those events, was sent before and answered 2xx or 4xx.
pub proof fn removed_only_after_answer(
    states: Seq<DestinationTask>,
    outcomes: Seq<Outcome>,
    at: int,
)
    requires
        is_run(states, outcomes),
        0 <= at < states.len(),
        states[at].phase.removing() is Some,
    ensures
        exists|i: int|
            0 <= i < at && #[trigger] answered(
                states[i],
                outcomes[i],
                states[at].phase.removing()->0,
            ),
    decreases at,
{
    let txn = states[at].phase.removing()->0;
    if at > 0 {
        assert(is_step(states[at - 1], outcomes[at - 1], states[at - 1 + 1]));
        if states[at - 1].phase.removing() is Some {
            removed_only_after_answer(states, outcomes, at - 1);
        } else {
            assert(answered(states[at - 1], outcomes[at - 1], txn));
        }
    }
}

/// Nothing is given up on a passing failure. What is sent is done with only by a 2xx answer, or by
/// a 4xx one, a status from 400 to 499; on any other status, and without an answer, the same
/// transaction waits to be sent again.
pub proof fn given_up_only_on_answer(
    before: DestinationTask,
    outcome: Outcome,
    after: DestinationTask,
    reconcile: Seq<(Seq<char>, Heads)>,
)
    requires
        DestinationTask::follows(before, outcome, after, reconcile),
        before.phase is Send,
    ensures
        after.phase is DropBatch || after.phase is ClearRejected <==> (
        outcome matches Outcome::Status(status) && 400 <= status < 500),
        after.phase is RemoveBatch || after.phase is ClearDelivered <==> outcome is Delivered,
        (outcome matches Outcome::Status(status) && (status < 400 || status >= 500))
            || outcome is Unreachable ==> after.phase == (Phase::WaitToSend {
            txn: before.phase->Send_txn,
        }),
        after.phase is DropBatch || after.phase is RemoveBatch ==>
            before.phase->Send_txn.payload.purpose == Purpose::Batch,
        after.phase is ClearRejected || after.phase is ClearDelivered ==>
            before.phase->Send_txn.payload.purpose == Purpose::Advertisement,
        after.phase is Stopped <==> outcome is NoSlot,
        after.phase is Stopped || after.phase.transaction() == Some(before.phase->Send_txn),
{
}

/// A transaction that waits is sent again, the same one, as soon as the wait is over.
pub proof fn waiting_is_sent_again(
    before: DestinationTask,
    outcome: Outcome,
    after: DestinationTask,
    reconcile: Seq<(Seq<char>, Heads)>,
)
    requires
        DestinationTask::follows(before, outcome, after, reconcile),
        before.phase is WaitToSend,
    ensures
        outcome is Woken ==> after.phase == (Phase::Send { txn: before.phase->WaitToSend_txn }),
        !(outcome is Woken) ==> after == before,
{
}

/// A transaction is done with only once the outbox, or what was owed, was changed for it. A batch
/// that could not be taken out of the outbox is sent again; so is an advertisement that was
/// delivered while what was owed for it could not be cleared.
pub proof fn done_only_once_removed(
    before: DestinationTask,
    outcome: Outcome,
    after: DestinationTask,
    reconcile: Seq<(Seq<char>, Heads)>,
)
    requires
        DestinationTask::follows(before, outcome, after, reconcile),
        before.phase is DropBatch || before.phase is RemoveBatch || before.phase
            is ClearDelivered,
    ensures
        after.phase.transaction() is None <==> outcome is Done,
        outcome is Fault ==> after.phase == (Phase::WaitToSend {
            txn: before.phase.transaction()->0,
        }),
{
}

/// Whether the step at `i` read a batch that a payload is made of: the events of the one are the
/// events of the other, in the same order.
pub open spec fn batch_read_at(
    states: Seq<DestinationTask>,
    outcomes: Seq<Outcome>,
    i: int,
    payload: Payload,
) -> bool {
    states[i].phase is ReadPdus && (outcomes[i] matches Outcome::Pdus(batch) && is_batch_of(
        payload,
        batch@,
    ))
}

/// Whether a payload carries some events: each of them, as it travels, and under its identifier.
pub open spec fn is_batch_of(payload: Payload, batch: Seq<Event>) -> bool {
    &&& payload.pdus@.len() == batch.len()
    &&& payload.event_ids@.len() == batch.len()
    &&& forall|k: int|
        0 <= k < batch.len() ==> (#[trigger] payload.pdus@[k])@ == batch[k].raw@
            && payload.event_ids@[k]@ == batch[k].event_id@
}

proof fn delivered_is_batch(payload: Payload, batch: Seq<Event>, heads: Seq<(Seq<char>, Heads)>)
    requires
        payload.delivers(event_models(batch), heads),
    ensures
        is_batch_of(payload, batch),
{
    let all = event_models(batch);
    let raws = all.map_values(|e: EventModel| e.raw);
    let ids = all.map_values(|e: EventModel| e.event_id);
    assert(texts(payload.pdus@).len() == raws.len());
    assert(texts(payload.event_ids@).len() == ids.len());
    assert forall|k: int| 0 <= k < batch.len() implies (#[trigger] payload.pdus@[k])@
        == batch[k].raw@ && payload.event_ids@[k]@ == batch[k].event_id@ by {
        assert(texts(payload.pdus@)[k] == raws[k]);
        assert(texts(payload.event_ids@)[k] == ids[k]);
    }
}

proof fn batch_came_from_outbox(states: Seq<DestinationTask>, outcomes: Seq<Outcome>, at: int)
    requires
        is_run(states, outcomes),
        0 <= at < states.len(),
    ensures
        states[at].phase matches Phase::ReadBatchHeads { batch, .. } ==> exists|i: int|
            0 <= i < at && states[i].phase is ReadPdus && #[trigger] outcomes[i] == Outcome::Pdus(
                batch,
            ),
        states[at].phase matches Phase::Name { payload } && payload.purpose == Purpose::Batch
            ==> exists|i: int|
            0 <= i < at && #[trigger] batch_read_at(
                states,
                outcomes,
                i,
                states[at].phase->Name_payload,
            ),
        states[at].phase matches Phase::ClearHeadless { payload, .. } ==> payload.purpose
            == Purpose::Advertisement,
        states[at].phase.transaction() matches Some(txn) && txn.payload.purpose == Purpose::Batch
            ==> exists|i: int|
            0 <= i < at && #[trigger] batch_read_at(
                states,
                outcomes,
                i,
                states[at].phase.transaction()->0.payload,
            ),
    decreases at,
{
    if at > 0 {
        let before = states[at - 1];
        assert(is_step(before, outcomes[at - 1], states[at - 1 + 1]));
        batch_came_from_outbox(states, outcomes, at - 1);
        match (before.phase, outcomes[at - 1]) {
            (Phase::ReadBatchHeads { batch, rooms }, Outcome::Heads(heads)) => {
                if heads@.len() == rooms@.len() {
                    let payload = states[at].phase->Name_payload;
                    delivered_is_batch(
                        payload,
                        batch@,
                        with_heads(texts(rooms@), heads_of(heads@)),
                    );
                    let i = choose|i: int|
                        0 <= i < at - 1 && states[i].phase is ReadPdus && #[trigger] outcomes[i]
                            == Outcome::Pdus(batch);
                    assert(batch_read_at(states, outcomes, i, payload));
                }
            },
            _ => {},
        }
    }
}

/// What is sent, and what is taken out of the outbox for it, is what was read from the outbox: the
/// events of one reading, all of them, in their order.
pub proof fn sent_is_what_was_read(states: Seq<DestinationTask>, outcomes: Seq<Outcome>, at: int)
    requires
        is_run(states, outcomes),
        0 <= at < states.len(),
        states[at].phase.transaction() is Some,
        states[at].phase.transaction()->0.payload.purpose == Purpose::Batch,
    ensures
        exists|i: int|
            0 <= i < at && #[trigger] batch_read_at(
                states,
                outcomes,
                i,
                states[at].phase.transaction()->0.payload,
            ),
{
    batch_came_from_outbox(states, outcomes, at);
}

/// Whatever pending events are read are sent: the task goes from reading them to reading the heads
/// of their rooms, to naming a transaction that carries all of them, to sending it.
pub proof fn pending_events_are_sent(
    before: DestinationTask,
    outcome: Outcome,
    after: DestinationTask,
    reconcile: Seq<(Seq<char>, Heads)>,
)
    requires
        DestinationTask::follows(before, outcome, after, reconcile),
    ensures
        before.phase is ReadPdus && (outcome matches Outcome::Pdus(batch) && batch@.len() > 0) ==> (
        after.phase matches Phase::ReadBatchHeads { batch, .. } && batch == outcome->Pdus_0),
        before.phase is ReadBatchHeads && (outcome matches Outcome::Heads(heads) && heads@.len()
            == before.phase->ReadBatchHeads_rooms@.len()) ==> (
        after.phase matches Phase::Name { payload } && payload.purpose == Purpose::Batch
            && is_batch_of(payload, before.phase->ReadBatchHeads_batch@)),
        before.phase is Name && outcome is Named ==> (after.phase matches Phase::Send { txn }
            && txn.payload == before.phase->Name_payload && txn.txn_id == outcome->Named_0),
{
    match (before.phase, outcome) {
        (Phase::ReadBatchHeads { batch, rooms }, Outcome::Heads(heads)) => {
            if heads@.len() == rooms@.len() {
                delivered_is_batch(
                    after.phase->Name_payload,
                    batch@,
                    with_heads(texts(rooms@), heads_of(heads@)),
                );
            }
        },
        _ => {},
    }
}

/// A task rests only when nothing is left to do: the outbox was read and empty, and then nothing
/// was owed. It rests until something is stored.
pub proof fn rests_only_when_drained(
    states: Seq<DestinationTask>,
    outcomes: Seq<Outcome>,
    at: int,
)
    requires
        is_run(states, outcomes),
        0 < at < states.len(),
        states[at].phase is Idle,
        !(states[at - 1].phase is Idle),
    ensures
        states[at - 1].phase is ReadOwed,
        outcomes[at - 1] matches Outcome::Owed(owed) && owed@.len() == 0,
        exists|i: int|
            0 <= i < at && states[i].phase is ReadPdus && (
            #[trigger] outcomes[i] matches Outcome::Pdus(batch) && batch@.len() == 0),
{
    assert(is_step(states[at - 1], outcomes[at - 1], states[at - 1 + 1]));
    owed_after_empty_outbox(states, outcomes, at - 1);
}

proof fn owed_after_empty_outbox(states: Seq<DestinationTask>, outcomes: Seq<Outcome>, at: int)
    requires
        is_run(states, outcomes),
        0 <= at < states.len(),
        states[at].phase is ReadOwed,
    ensures
        exists|i: int|
            0 <= i < at && states[i].phase is ReadPdus && (
            #[trigger] outcomes[i] matches Outcome::Pdus(batch) && batch@.len() == 0),
    decreases at,
{
    if at > 0 {
        assert(is_step(states[at - 1], outcomes[at - 1], states[at - 1 + 1]));
        if states[at - 1].phase is ReadOwed {
            owed_after_empty_outbox(states, outcomes, at - 1);
        } else {
            assert(states[at - 1].phase is ReadPdus);
        }
    }
}

/// Something stored wakes a task that rests; a failed reading is tried again after a wait.
pub proof fn reading_goes_on(
    before: DestinationTask,
    outcome: Outcome,
    after: DestinationTask,
    reconcile: Seq<(Seq<char>, Heads)>,
)
    requires
        DestinationTask::follows(before, outcome, after, reconcile),
    ensures
        before.phase is Idle && outcome is Stored ==> after.phase is ReadPdus,
        before.phase is ReadPdus && outcome is Fault ==> after.phase is WaitToRead,
        before.phase is ReadOwed && outcome is Fault ==> after.phase is WaitToRead,
        before.phase is WaitToRead && outcome is Woken ==> after.phase is ReadPdus,
        before.phase is ReadPdus && (outcome matches Outcome::Pdus(batch) && batch@.len() == 0)
            ==> after.phase is ReadOwed,
        before.phase is ReadOwed && (outcome matches Outcome::Owed(owed) && owed@.len() > 0) ==> (
        after.phase matches Phase::ReadOwedHeads { owed, .. } && owed == outcome->Owed_0),
        before.phase is ClearHeadless && (outcome is Done || outcome is Fault) ==> after.phase
            == (Phase::Name { payload: before.phase->ClearHeadless_payload }),
        before.phase is ClearJunk && (outcome is Done || outcome is Fault) ==> after.phase
            is ReadPdus,
        before.phase is ClearRejected && (outcome is Done || outcome is Fault) ==> after.phase
            is ReadPdus,
        before.phase is DropBatch && outcome is Done ==> after.phase is ReadPdus,
        before.phase is ClearDelivered && outcome is Done ==> after.phase is ReadPdus,
        before.phase is ClearCovered && (outcome is Done || outcome is Fault) ==> after.phase
            is ReadPdus,
{
}

/// The waits grow from one failure to the next and start again from one second after every
/// success: a ceiling changes only by a wait, or goes back to a second where something was done or
/// nothing is left to do.
pub proof fn ceiling_falls_on_success(
    before: DestinationTask,
    outcome: Outcome,
    after: DestinationTask,
    reconcile: Seq<(Seq<char>, Heads)>,
)
    requires
        before.wf(),
        DestinationTask::follows(before, outcome, after, reconcile),
    ensures
        outcome matches Outcome::Woken { kicked } && (before.phase is WaitToRead || before.phase
            is WaitToSend) ==> after.backoff == if outcome->Woken_kicked {
            1_000
        } else if before.backoff <= 450_000 {
            before.backoff + before.backoff
        } else {
            900_000
        },
        !(before.phase is WaitToRead || before.phase is WaitToSend) ==> after.backoff
            == before.backoff || after.backoff == 1_000,
        after.phase is Send || after.phase is WaitToSend || after.phase is WaitToRead ==> before.phase
            is WaitToSend || after.backoff == before.backoff,
        after.phase is Idle && !(before.phase is Idle) ==> after.backoff == 1_000,
        after.phase is ReadPdus && !(before.phase is ReadPdus || before.phase is WaitToRead
            || before.phase is Idle) ==> after.backoff == 1_000,
{
}

/// The heads that a peer answered with are reconciled once its answer was acted on: those, and at
/// no other time.
pub proof fn peer_heads_are_reconciled(
    before: DestinationTask,
    outcome: Outcome,
    after: DestinationTask,
    reconcile: Seq<(Seq<char>, Heads)>,
)
    requires
        DestinationTask::follows(before, outcome, after, reconcile),
    ensures
        before.phase is Send && outcome is Delivered ==> match after.phase {
            Phase::RemoveBatch { peer, .. } => peer == outcome->Delivered_0,
            Phase::ClearDelivered { peer, .. } => peer == outcome->Delivered_0,
            _ => false,
        },
        match before.phase {
            Phase::RemoveBatch { peer, .. } => match after.phase {
                Phase::ReadPdus => reconcile == advertisement(peer@),
                Phase::ClearCovered { peer: kept, .. } => kept == peer && reconcile.len() == 0,
                _ => reconcile.len() == 0,
            },
            Phase::ClearCovered { peer, .. } => if after.phase is ReadPdus {
                reconcile == advertisement(peer@)
            } else {
                reconcile.len() == 0
            },
            Phase::ClearDelivered { peer, .. } => if after.phase is ReadPdus {
                reconcile == advertisement(peer@)
            } else {
                reconcile.len() == 0
            },
            _ => reconcile.len() == 0,
        },
{
}

/// What is owed is cleared only for cause: for a room without heads; for the rooms of an
/// advertisement that was delivered or rejected; or for the rooms of a delivered batch, once it is
/// out of the outbox.
pub proof fn cleared_only_for_cause(
    before: DestinationTask,
    outcome: Outcome,
    after: DestinationTask,
    reconcile: Seq<(Seq<char>, Heads)>,
)
    requires
        DestinationTask::follows(before, outcome, after, reconcile),
        before.phase.clearing() is None,
        after.phase.clearing() is Some,
    ensures
        match before.phase {
            Phase::ReadOwedHeads { .. } => outcome is Heads,
            Phase::Send { txn } => txn.payload.purpose == Purpose::Advertisement
                && after.phase.clearing() == Some(texts(txn.payload.rooms@)) && (outcome
                is Delivered || (outcome matches Outcome::Status(status) && 400 <= status < 500)),
            Phase::RemoveBatch { txn, .. } => outcome is Done && after.phase.clearing() == Some(
                texts(txn.payload.rooms@),
            ),
            _ => false,
        },
{
}

proof fn with_heads_holds(rooms: Seq<Seq<char>>, heads: Seq<Heads>, at: int)
    requires
        rooms.len() == heads.len(),
        0 <= at < rooms.len(),
        heads[at].timeline.len() > 0 || heads[at].state.len() > 0,
    ensures
        with_heads(rooms, heads).contains((rooms[at], heads[at])),
    decreases rooms.len(),
{
    let before = with_heads(rooms.drop_last(), heads.drop_last());
    lemma_seq_contains_after_push(before, (rooms.last(), heads.last()), (rooms[at], heads[at]));
    if at < rooms.len() - 1 {
        with_heads_holds(rooms.drop_last(), heads.drop_last(), at);
    }
}

proof fn with_heads_only(rooms: Seq<Seq<char>>, heads: Seq<Heads>, pair: (Seq<char>, Heads))
    requires
        rooms.len() == heads.len(),
        with_heads(rooms, heads).contains(pair),
    ensures
        exists|at: int| 0 <= at < rooms.len() && #[trigger] rooms[at] == pair.0 && heads[at] == pair.1,
    decreases rooms.len(),
{
    if rooms.len() > 0 {
        let fewer = rooms.drop_last();
        let less = heads.drop_last();
        let before = with_heads(fewer, less);
        lemma_seq_contains_after_push(before, (rooms.last(), heads.last()), pair);
        if before.contains(pair) {
            with_heads_only(fewer, less, pair);
            let at = choose|at: int|
                0 <= at < fewer.len() && #[trigger] fewer[at] == pair.0 && less[at] == pair.1;
            assert(rooms[at] == pair.0 && heads[at] == pair.1);
        } else {
            assert(rooms[rooms.len() - 1] == pair.0);
        }
    }
}

/// The payload that the task goes on with.
pub open spec fn payload_of(phase: Phase) -> Option<Payload> {
    match phase {
        Phase::Name { payload } => Some(payload),
        Phase::ClearHeadless { payload, .. } => Some(payload),
        _ => None,
    }
}

/// The rooms whose heads are being read.
pub open spec fn asked_rooms(phase: Phase) -> Seq<String> {
    match phase {
        Phase::ReadBatchHeads { rooms, .. } => rooms@,
        Phase::ReadOwedHeads { rooms, .. } => rooms@,
        _ => Seq::empty(),
    }
}

/// A transaction carries the heads of every room that has any: of the rooms of its events, or of
/// those that are owed an advertisement. An advertisement carries no events.
pub proof fn heads_are_carried(
    before: DestinationTask,
    outcome: Outcome,
    after: DestinationTask,
    reconcile: Seq<(Seq<char>, Heads)>,
    at: int,
)
    requires
        DestinationTask::follows(before, outcome, after, reconcile),
        before.phase is ReadBatchHeads || before.phase is ReadOwedHeads,
        outcome is Heads,
        asked_rooms(before.phase).len() == outcome->Heads_0@.len(),
        0 <= at < outcome->Heads_0@.len(),
        outcome->Heads_0@[at].timeline@.len() > 0 || outcome->Heads_0@[at].state@.len() > 0,
    ensures
        ({
            let room = asked_rooms(before.phase)[at];
            &&& payload_of(after.phase) is Some
            &&& advertisement(payload_of(after.phase)->0.heads@).contains(
                (room@, outcome->Heads_0@[at]@),
            )
            &&& before.phase is ReadOwedHeads ==> payload_of(after.phase)->0.purpose
                == Purpose::Advertisement && payload_of(after.phase)->0.pdus@.len() == 0
        }),
{
    let rooms = texts(asked_rooms(before.phase));
    let heads = heads_of(outcome->Heads_0@);
    assert(heads[at].timeline.len() == outcome->Heads_0@[at].timeline@.len());
    assert(heads[at].state.len() == outcome->Heads_0@[at].state@.len());
    with_heads_holds(rooms, heads, at);
    assert(with_heads(rooms, heads).len() > 0);
}

/// A transaction carries no heads but those that were read, each under its own room.
pub proof fn carried_heads_were_read(
    before: DestinationTask,
    outcome: Outcome,
    after: DestinationTask,
    reconcile: Seq<(Seq<char>, Heads)>,
    pair: (Seq<char>, Heads),
)
    requires
        DestinationTask::follows(before, outcome, after, reconcile),
        before.phase is ReadBatchHeads || before.phase is ReadOwedHeads,
        payload_of(after.phase) is Some,
        advertisement(payload_of(after.phase)->0.heads@).contains(pair),
    ensures
        outcome matches Outcome::Heads(heads) && exists|at: int|
            0 <= at < heads@.len() && (#[trigger] asked_rooms(before.phase)[at])@ == pair.0
                && heads@[at]@ == pair.1,
{
    let rooms = asked_rooms(before.phase);
    let heads = heads_of(outcome->Heads_0@);
    with_heads_only(texts(rooms), heads, pair);
    let at = choose|at: int|
        0 <= at < texts(rooms).len() && #[trigger] texts(rooms)[at] == pair.0 && heads[at] == pair.1;
    assert(rooms[at]@ == pair.0);
}

/// An outcome that answers nothing the task asked for changes nothing.
pub proof fn unasked_outcome_changes_nothing(
    before: DestinationTask,
    outcome: Outcome,
    after: DestinationTask,
    reconcile: Seq<(Seq<char>, Heads)>,
)
    requires
        DestinationTask::follows(before, outcome, after, reconcile),
        !before.phase.expects(outcome),
    ensures
        after == before,
        reconcile.len() == 0,
{
}

/// A transaction keeps its identifier and its payload however often it is sent: a step either
/// keeps the transaction that is under way, or ends it.
pub proof fn resent_unchanged(
    before: DestinationTask,
    outcome: Outcome,
    after: DestinationTask,
    reconcile: Seq<(Seq<char>, Heads)>,
)
    requires
        DestinationTask::follows(before, outcome, after, reconcile),
        before.phase.transaction() is Some,
    ensures
        after.phase.transaction() is Some ==> after.phase.transaction()
            == before.phase.transaction(),
{
}

/// A rejected batch leaves the advertisement owed: no owed advertisement is cleared when a batch
/// has been dropped.
pub proof fn rejection_keeps_obligation(
    before: DestinationTask,
    outcome: Outcome,
    after: DestinationTask,
    reconcile: Seq<(Seq<char>, Heads)>,
)
    requires
        DestinationTask::follows(before, outcome, after, reconcile),
        before.phase is DropBatch,
    ensures
        after.phase.clearing() is None,
        reconcile.len() == 0,
{
}

/// A delivered batch whose transaction carried heads settles exactly the rooms whose heads it
/// carried, once it has been removed.
pub proof fn delivery_settles_its_rooms(
    before: DestinationTask,
    outcome: Outcome,
    after: DestinationTask,
    reconcile: Seq<(Seq<char>, Heads)>,
)
    requires
        before.wf(),
        DestinationTask::follows(before, outcome, after, reconcile),
        before.phase is RemoveBatch,
        outcome is Done,
    ensures
        before.phase->RemoveBatch_txn.payload.heads@.len() > 0 ==> after.phase.clearing() == Some(
            advertised_rooms(advertisement(before.phase->RemoveBatch_txn.payload.heads@)),
        ),
        before.phase->RemoveBatch_txn.payload.heads@.len() == 0 ==> after.phase.clearing() is None,
{
}

proof fn headless_or_advertised(rooms: Seq<Seq<char>>, heads: Seq<Heads>, at: int)
    requires
        rooms.len() == heads.len(),
        0 <= at < rooms.len(),
        rooms.no_duplicates(),
    ensures
        without_heads(rooms, heads).contains(rooms[at]) == heads[at].is_empty(),
        advertised_rooms(with_heads(rooms, heads)).contains(rooms[at]) == !heads[at].is_empty(),
    decreases rooms.len(),
{
    let fewer = rooms.drop_last();
    let less = heads.drop_last();
    let cleared = without_heads(fewer, less);
    let told = advertised_rooms(with_heads(fewer, less));
    let last = rooms.last();
    only_of_rooms(fewer, less);
    assert(!fewer.contains(last)) by {
        if fewer.contains(last) {
            let k = choose|k: int| 0 <= k < fewer.len() && fewer[k] == last;
            assert(rooms[k] == rooms[rooms.len() - 1]);
        }
    }
    assert(advertised_rooms(with_heads(rooms, heads)) =~= if heads.last().is_empty() {
        told
    } else {
        told.push(last)
    });
    lemma_seq_contains_after_push(cleared, last, rooms[at]);
    lemma_seq_contains_after_push(told, last, rooms[at]);
    if at < fewer.len() {
        assert(fewer.no_duplicates());
        headless_or_advertised(fewer, less, at);
        assert(fewer[at] == rooms[at] && less[at] == heads[at]);
        assert(rooms[at] != rooms[rooms.len() - 1]);
    }
}

proof fn only_of_rooms(rooms: Seq<Seq<char>>, heads: Seq<Heads>)
    requires
        rooms.len() == heads.len(),
    ensures
        forall|room: Seq<char>| without_heads(rooms, heads).contains(room) ==> rooms.contains(room),
        forall|room: Seq<char>|
            advertised_rooms(with_heads(rooms, heads)).contains(room) ==> rooms.contains(room),
    decreases rooms.len(),
{
    if rooms.len() > 0 {
        let fewer = rooms.drop_last();
        let less = heads.drop_last();
        only_of_rooms(fewer, less);
        let cleared = without_heads(fewer, less);
        let told = advertised_rooms(with_heads(fewer, less));
        assert(advertised_rooms(with_heads(rooms, heads)) =~= if heads.last().is_empty() {
            told
        } else {
            told.push(rooms.last())
        });
        assert(rooms[rooms.len() - 1] == rooms.last());
        assert forall|room: Seq<char>| fewer.contains(room) implies rooms.contains(room) by {
            let k = choose|k: int| 0 <= k < fewer.len() && fewer[k] == room;
            assert(rooms[k] == room);
        }
        assert forall|room: Seq<char>|
            without_heads(rooms, heads).contains(room) implies rooms.contains(room) by {
            let now = without_heads(rooms, heads);
            let k = choose|k: int| 0 <= k < now.len() && now[k] == room;
            if k < cleared.len() {
                assert(cleared[k] == room);
            }
        }
        assert forall|room: Seq<char>|
            advertised_rooms(with_heads(rooms, heads)).contains(room) implies rooms.contains(
            room,
        ) by {
            let now = advertised_rooms(with_heads(rooms, heads));
            let k = choose|k: int| 0 <= k < now.len() && now[k] == room;
            if k < told.len() {
                assert(told[k] == room);
            }
        }
    }
}

/// An owed room without heads cannot wedge the drain: once the heads of the rooms that are owed
/// were read, what is owed for a room is cleared up front exactly where it has no heads.
pub proof fn headless_rooms_are_cleared_first(
    before: DestinationTask,
    outcome: Outcome,
    after: DestinationTask,
    reconcile: Seq<(Seq<char>, Heads)>,
    at: int,
)
    requires
        before.wf(),
        DestinationTask::follows(before, outcome, after, reconcile),
        before.phase is ReadOwedHeads,
        before.phase.expects(outcome),
        0 <= at < before.phase->ReadOwedHeads_rooms@.len(),
    ensures
        outcome->Heads_0@[at]@.is_empty() == (after.phase.clearing() matches Some(cleared)
            && cleared.contains(before.phase->ReadOwedHeads_rooms@[at]@)),
{
    let rooms = texts(before.phase->ReadOwedHeads_rooms@);
    let owed = texts(before.phase->ReadOwedHeads_owed@);
    let heads = heads_of(outcome->Heads_0@);
    assert forall|i: int, j: int|
        0 <= i < rooms.len() && 0 <= j < rooms.len() && i != j implies rooms[i] != rooms[j] by {
        if i < j {
            assert(rooms[i] != rooms[j]);
        } else {
            assert(rooms[j] != rooms[i]);
        }
    }
    headless_or_advertised(rooms, heads, at);
    let told = advertised_rooms(with_heads(rooms, heads));
    assert(told.len() == with_heads(rooms, heads).len());
    if after.phase is ClearJunk {
        assert(rooms.to_set().contains(rooms[at]));
        assert(owed.to_set().contains(rooms[at]));
    }
}

/// A task stops only when no send slot is given any more, or the store is gone.
pub proof fn stops_only_on_shutdown(
    before: DestinationTask,
    outcome: Outcome,
    after: DestinationTask,
    reconcile: Seq<(Seq<char>, Heads)>,
)
    requires
        DestinationTask::follows(before, outcome, after, reconcile),
        !(before.phase is Stopped),
        after.phase is Stopped,
    ensures
        before.phase is Send && outcome is NoSlot || before.phase is Idle && outcome is StoreGone,
{
}

/// A transaction carries no more events than the batch that was read: with a store that honours
/// the limit it was asked for, no more than [`MAX_PDUS_PER_TXN`].
pub proof fn batch_fits(payload: Payload, batch: Seq<EventModel>, heads: Seq<(Seq<char>, Heads)>)
    requires
        payload.delivers(batch, heads),
        batch.len() <= MAX_PDUS_PER_TXN,
    ensures
        payload.pdus@.len() <= MAX_PDUS_PER_TXN,
{
    assert(texts(payload.pdus@).len() == batch.len());
}

/// Every destination that needs a task: those with pending events, and those owed only an
/// advertisement.
pub fn destinations_needing_a_task(pending: &Vec<String>, owed: &Vec<String>) -> (dests: TextSet)
    ensures
        dests@ == texts(pending@).to_set().union(texts(owed@).to_set()),
{
    TextSet::from_items(pending).extend(owed)
}

/// One round of the supervisor: which destinations get a task now, and which run after it. A
/// destination that runs already gets no second task.
pub fn supervise_round(running: TextSet, dests: TextSet) -> (round: (Vec<String>, TextSet))
    ensures
        rising(texts(round.0@)),
        texts(round.0@).to_set() == dests@.difference(running@),
        round.1@ == running@.union(dests@),
{
    let ghost already = running@;
    let wanted = dests.into_items();
    let ghost all = texts(wanted@);
    let mut spawn: Vec<String> = Vec::new();
    let mut now = running;
    let mut i: usize = 0;
    assert(all.take(0).to_set() =~= Set::empty());
    assert(texts(spawn@).to_set() =~= Set::empty());
    assert(now@ =~= already.union(all.take(0).to_set()));
    while i < wanted.len()
        invariant
            i <= wanted.len(),
            all == texts(wanted@),
            rising(all),
            now@ == already.union(all.take(i as int).to_set()),
            rising(texts(spawn@)),
            forall|k: int|
                0 <= k < spawn.len() ==> exists|m: int|
                    0 <= m < i && #[trigger] all[m] == #[trigger] texts(spawn@)[k],
            texts(spawn@).to_set() == all.take(i as int).to_set().difference(already),
        decreases wanted.len() - i,
    {
        let ghost name = all[i as int];
        let ghost done = all.take(i as int);
        let ghost next = all.take(i + 1);
        let ghost spawned = texts(spawn@);
        proof {
            assert(next =~= done.push(name));
            assert forall|t: Seq<char>| next.to_set().contains(t) == done.to_set().insert(
                name,
            ).contains(t) by {
                if done.contains(t) {
                    let k = choose|k: int| 0 <= k < i && done[k] == t;
                    assert(next[k] == t);
                }
                assert(next[i as int] == name);
            }
            assert(next.to_set() =~= done.to_set().insert(name));
            if done.contains(name) {
                let k = choose|k: int| 0 <= k < i && done[k] == name;
                assert(all[k] == name);
            }
        }
        let (bigger, new) = now.insert(wanted[i].clone());
        now = bigger;
        assert(now@ =~= already.union(next.to_set()));
        if new {
            spawn.push(wanted[i].clone());
            proof {
                let after = texts(spawn@);
                assert(after =~= spawned.push(name));
                assert forall|a: int, b: int| 0 <= a < b < after.len() implies crate::text::text_le(
                    #[trigger] after[a],
                    #[trigger] after[b],
                ) && after[a] != after[b] by {
                    if b == spawned.len() {
                        let m = choose|m: int| 0 <= m < i && #[trigger] all[m] == spawned[a];
                        assert(all[m] == after[a] && all[i as int] == after[b]);
                    } else {
                        assert(spawned[a] == after[a] && spawned[b] == after[b]);
                    }
                }
                assert forall|t: Seq<char>| after.to_set().contains(t) == next.to_set().difference(
                    already,
                ).contains(t) by {
                    if spawned.contains(t) {
                        let k = choose|k: int| 0 <= k < spawned.len() && spawned[k] == t;
                        assert(after[k] == t);
                        assert(spawned.to_set().contains(t));
                    }
                    assert(after[spawned.len() as int] == name);
                    if next.to_set().difference(already).contains(t) && t != name {
                        assert(done.to_set().difference(already).contains(t));
                        assert(spawned.to_set().contains(t));
                    }
                    if after.contains(t) && t != name {
                        let k = choose|k: int| 0 <= k < after.len() && after[k] == t;
                        assert(spawned[k] == t);
                        assert(spawned.to_set().contains(t));
                    }
                }
                assert(after.to_set() =~= next.to_set().difference(already));
                assert forall|k: int| 0 <= k < spawn.len() implies exists|m: int|
                    0 <= m < i + 1 && #[trigger] all[m] == #[trigger] texts(spawn@)[k] by {
                    if k < spawned.len() {
                        let m = choose|m: int| 0 <= m < i && #[trigger] all[m] == spawned[k];
                        assert(all[m] == texts(spawn@)[k]);
                    } else {
                        assert(all[i as int] == texts(spawn@)[k]);
                    }
                }
            }
        } else {
            assert(texts(spawn@).to_set() =~= next.to_set().difference(already));
        }
        i += 1;
    }
    assert(all.take(i as int) =~= all);
    assert(now@ =~= already.union(dests@));
    (spawn, now)
}

/// How many transactions may be in flight at once: what is configured, but at least one.
pub fn send_slots(concurrency: usize) -> (slots: usize)
    ensures
        slots == if concurrency == 0 {
            1
        } else {
            concurrency
        },
{
    if concurrency == 0 {
        1
    } else {
        concurrency
    }
}

/// A step of a task does what the law of its machine says.
pub proof fn task_steps_by_the_law(
    before: DestinationTask,
    outcome: Outcome,
    stepped: (DestinationTask, Vec<(String, ForwardExtremities)>),
)
    requires
        call_ensures(DestinationTask::step, (before, outcome), stepped),
    ensures
        DestinationTask::follows(before, outcome, stepped.0, advertisement(stepped.1@)),
        stepped.0.wf(),
{
}

/// What a task is told to do is what its phase is for: the events that are read are at most 50; what is
/// removed are the events of the transaction at hand, what is cleared its rooms; and it waits no longer
/// than its ceiling.
pub proof fn told_what_the_phase_is_for(task: DestinationTask, action: Action<'_>)
    requires
        call_ensures(DestinationTask::action, (&task,), action),
    ensures
        action matches Action::ReadPdus(n) ==> task.phase is ReadPdus && n == 50,
        action is Send <==> task.phase is Send,
        action matches Action::Send(txn) ==> *txn == task.phase->Send_txn,
        action is RemovePdus <==> task.phase is DropBatch || task.phase is RemoveBatch,
        action matches Action::RemovePdus(ids) ==> *ids
            == task.phase.transaction()->0.payload.event_ids,
        action is Wait <==> task.phase is WaitToRead || task.phase is WaitToSend,
        action matches Action::Wait(ceiling) ==> ceiling == task.backoff,
        action matches Action::ClearOwed(rooms) ==> task.phase.clearing() == Some(texts(rooms@)),
        action is AwaitStored <==> task.phase is Idle,
        action is Stop <==> task.phase is Stopped,
{
}

/// Every destination that has something pending, or is owed something, gets a task, unless it has one;
/// and none gets two.
pub proof fn every_destination_gets_one_task(
    pending: Vec<String>,
    owed: Vec<String>,
    running: TextSet,
    dests: TextSet,
    round: (Vec<String>, TextSet),
    dest: Seq<char>,
)
    requires
        call_ensures(destinations_needing_a_task, (&pending, &owed), dests),
        call_ensures(supervise_round, (running, dests), round),
    ensures
        texts(round.0@).contains(dest) <==> (texts(pending@).contains(dest) || texts(owed@).contains(
            dest,
        )) && !running@.contains(dest),
        texts(pending@).contains(dest) || texts(owed@).contains(dest) ==> round.1@.contains(dest),
        running@.contains(dest) ==> round.1@.contains(dest),
        forall|i: int, j: int|
            0 <= i < j < round.0@.len() ==> (#[trigger] round.0@[i])@ != (#[trigger] round.0@[j])@,
{
    assert(texts(round.0@).to_set().contains(dest) == texts(round.0@).contains(dest));
    assert(texts(pending@).to_set().contains(dest) == texts(pending@).contains(dest));
    assert(texts(owed@).to_set().contains(dest) == texts(owed@).contains(dest));
    assert forall|i: int, j: int| 0 <= i < j < round.0@.len() implies (#[trigger] round.0@[i])@ != (
    #[trigger] round.0@[j])@ by {
        assert(texts(round.0@)[i] != texts(round.0@)[j]);
    }
}

/// There is always a slot to send in, and there are as many as are configured.
pub proof fn there_is_a_slot(concurrency: usize, slots: usize)
    requires
        call_ensures(send_slots, (concurrency,), slots),
    ensures
        slots >= 1,
        concurrency >= 1 ==> slots == concurrency,
{
}

/// The heads that are read for a batch are those of the rooms of its events, each room once: of every
/// event, and of no other room. Those that are read for owed rooms are those of the owed rooms.
pub proof fn heads_of_each_room_are_read(
    before: DestinationTask,
    outcome: Outcome,
    stepped: (DestinationTask, Vec<(String, ForwardExtremities)>),
    i: int,
    room: Seq<char>,
)
    requires
        call_ensures(DestinationTask::step, (before, outcome), stepped),
    ensures
        stepped.0.phase matches Phase::ReadBatchHeads { batch, rooms } ==> {
            &&& 0 <= i < batch@.len() ==> texts(rooms@).contains(batch@[i].room_id@)
            &&& texts(rooms@).contains(room) ==> exists|k: int|
                0 <= k < batch@.len() && (#[trigger] batch@[k]).room_id@ == room
            &&& texts(rooms@).no_duplicates()
        },
        stepped.0.phase matches Phase::ReadOwedHeads { owed, rooms } ==> (texts(rooms@).contains(
            room,
        ) <==> texts(owed@).contains(room)),
{
    if let Phase::ReadBatchHeads { batch, rooms } = stepped.0.phase {
        let all = event_models(batch@);
        if 0 <= i < batch@.len() {
            assert(all[i].room_id == batch@[i].room_id@);
            assert(rooms_of(all).contains(batch@[i].room_id@));
            assert(texts(rooms@).to_set().contains(batch@[i].room_id@));
        }
        if texts(rooms@).contains(room) {
            assert(texts(rooms@).to_set().contains(room));
            let k = choose|k: int| 0 <= k < all.len() && (#[trigger] all[k]).room_id == room;
            assert(batch@[k].room_id@ == room);
        }
    }
    if let Phase::ReadOwedHeads { owed, rooms } = stepped.0.phase {
        assert(texts(rooms@).contains(room) == texts(rooms@).to_set().contains(room));
        assert(texts(owed@).contains(room) == texts(owed@).to_set().contains(room));
    }
}

} // verus!
