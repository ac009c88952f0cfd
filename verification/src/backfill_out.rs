//! One outbound backfill round: ask a peer of the room for older events, and keep those that are
//! new and of the room as history. Every fault yields nothing; a later round tries again.
//!
//! The peers are asked one after another; the first that answers wins. Asking, parsing and storing
//! are done outside; what came of each is handed to [`Round::step`].

use vstd::prelude::*;

use crate::event::Event;
use crate::text::{same_text, texts};

verus! {

/// The most seeds that a request names.
pub const MAX_SEEDS: usize = 5;

/// What a round is doing.
#[derive(Debug, PartialEq, Eq)]
pub enum RoundPhase {
    /// Asking the next peer.
    Ask,
    /// Parsing the next event of an answer.
    Parse,
    /// Looking whether an event is held already.
    LookUp { event: Event },
    /// Storing an event as history.
    Persist { event: Event },
    /// Over.
    Over,
}

/// What a round needs done.
#[derive(Debug, PartialEq, Eq)]
pub enum RoundAction<'a> {
    /// Ask this server for events of the room before these, no more than this many.
    Ask { server: &'a String, room_id: &'a String, seeds: &'a Vec<String>, limit: u32 },
    /// Parse this event.
    Parse(&'a String),
    /// Look whether this event is held already.
    LookUp(&'a Event),
    /// Store this event as history.
    Persist(&'a Event),
    /// Nothing more: this many events were stored.
    Stop(usize),
}

/// What came of it.
#[derive(Debug, PartialEq, Eq)]
pub enum RoundReport {
    /// The peer answered with these events.
    Answered(Vec<String>),
    /// The peer failed.
    PeerFailed,
    /// The event, whether it is to be kept as rejected or not.
    Parsed(Event),
    /// Nothing that can be named.
    Unparseable,
    /// Whether the event is held already.
    Held(bool),
    /// Stored.
    Stored,
    /// The store failed.
    Fault,
}

/// A round.
#[derive(Debug, PartialEq, Eq)]
pub struct Round {
    pub room_id: String,
    /// The events to walk back from.
    pub seeds: Vec<String>,
    pub limit: u32,
    /// The peers to ask, in order.
    pub dests: Vec<String>,
    /// How many of them were asked.
    pub asked: usize,
    /// The events of the answer.
    pub pdus: Vec<String>,
    /// How many of them were dealt with.
    pub done: usize,
    /// How many events were stored.
    pub persisted: usize,
    pub phase: RoundPhase,
}

/// The first of some texts, at most `n`.
pub fn first_texts(items: &Vec<String>, n: usize) -> (first: Vec<String>)
    ensures
        texts(first@) == texts(items@).take(
            if items@.len() < n {
                items@.len() as int
            } else {
                n as int
            },
        ),
{
    let mut first: Vec<String> = Vec::new();
    let mut i: usize = 0;
    while i < items.len() && i < n
        invariant
            i <= items.len(),
            i <= n,
            first.len() == i,
            forall|k: int| 0 <= k < i ==> (#[trigger] first@[k])@ == items@[k]@,
        decreases items.len() - i,
    {
        first.push(items[i].clone());
        i += 1;
    }
    assert(texts(first@) =~= texts(items@).take(
        if items@.len() < n {
            items@.len() as int
        } else {
            n as int
        },
    ));
    first
}

/// The servers of a list but this one.
pub fn other_servers(servers: &Vec<String>, own_server: &str) -> (others: Vec<String>)
    ensures
        texts(others@) == texts(servers@).filter(|s: Seq<char>| s != own_server@),
{
    let ghost keep = |s: Seq<char>| s != own_server@;
    let mut others: Vec<String> = Vec::new();
    let mut i: usize = 0;
    proof {
        reveal(Seq::filter);
        assert(texts(servers@).take(0) =~= Seq::empty());
        assert(texts(others@) =~= Seq::empty());
    }
    while i < servers.len()
        invariant
            i <= servers.len(),
            keep == (|s: Seq<char>| s != own_server@),
            texts(others@) == texts(servers@).take(i as int).filter(keep),
        decreases servers.len() - i,
    {
        proof {
            reveal(Seq::filter);
            assert(texts(servers@).take(i + 1).drop_last() =~= texts(servers@).take(i as int));
            assert(texts(servers@).take(i + 1).last() == servers@[i as int]@);
        }
        if !same_text(servers[i].as_str(), own_server) {
            let ghost before = others@;
            others.push(servers[i].clone());
            assert(texts(others@) =~= texts(before).push(servers@[i as int]@));
        }
        i += 1;
    }
    assert(texts(servers@).take(i as int) =~= texts(servers@));
    others
}

impl Round {
    /// How many events of the answer are looked at.
    pub open spec fn cap(self) -> int {
        if self.pdus@.len() < self.limit {
            self.pdus@.len() as int
        } else {
            self.limit as int
        }
    }

    /// The counts are within what they count, and what is being done exists.
    pub open spec fn wf(self) -> bool {
        &&& self.asked <= self.dests@.len()
        &&& self.persisted <= self.done <= self.cap()
        &&& match self.phase {
            RoundPhase::Ask => self.asked < self.dests@.len() && self.done == 0,
            RoundPhase::Parse | RoundPhase::LookUp { .. } | RoundPhase::Persist { .. } => self.done
                < self.cap(),
            RoundPhase::Over => true,
        }
    }

    /// Whether two states are of the same round, with the same answer.
    pub open spec fn same_round(self, other: Round) -> bool {
        &&& self.room_id == other.room_id
        &&& self.seeds == other.seeds
        &&& self.limit == other.limit
        &&& self.dests == other.dests
    }

    /// Going on with the next event of the answer, or over after the last.
    pub open spec fn goes_on(self, after: Round, persisted: int) -> bool {
        &&& after.pdus == self.pdus
        &&& after.asked == self.asked
        &&& after.done == self.done + 1
        &&& after.persisted == persisted
        &&& if self.done + 1 < self.cap() {
            after.phase is Parse
        } else {
            after.phase is Over
        }
    }

    /// Staying with the event.
    pub open spec fn stays(self, after: Round) -> bool {
        &&& after.pdus == self.pdus
        &&& after.asked == self.asked
        &&& after.done == self.done
        &&& after.persisted == self.persisted
    }

    /// How a report takes a round on.
    pub open spec fn follows(before: Round, report: RoundReport, after: Round) -> bool {
        &&& before.same_round(after)
        &&& match (before.phase, report) {
            (RoundPhase::Ask, RoundReport::Answered(pdus)) => {
                &&& after.pdus == pdus
                &&& after.asked == before.asked + 1
                &&& after.done == 0
                &&& after.persisted == before.persisted
                &&& if after.cap() > 0 {
                    after.phase is Parse
                } else {
                    after.phase is Over
                }
            },
            (RoundPhase::Ask, RoundReport::PeerFailed) => {
                &&& after.pdus == before.pdus
                &&& after.asked == before.asked + 1
                &&& after.done == before.done
                &&& after.persisted == before.persisted
                &&& if before.asked + 1 < before.dests@.len() {
                    after.phase is Ask
                } else {
                    after.phase is Over
                }
            },
            (RoundPhase::Parse, RoundReport::Parsed(event)) => if event@.room_id == before.room_id@ {
                before.stays(after) && after.phase == (RoundPhase::LookUp { event })
            } else {
                before.goes_on(after, before.persisted as int)
            },
            (RoundPhase::Parse, RoundReport::Unparseable) => before.goes_on(
                after,
                before.persisted as int,
            ),
            (RoundPhase::LookUp { event }, RoundReport::Held(held)) => if held {
                before.goes_on(after, before.persisted as int)
            } else {
                before.stays(after) && after.phase == (RoundPhase::Persist { event })
            },
            (RoundPhase::LookUp { .. }, RoundReport::Fault) => before.goes_on(
                after,
                before.persisted as int,
            ),
            (RoundPhase::Persist { .. }, RoundReport::Stored) => before.goes_on(
                after,
                before.persisted + 1,
            ),
            (RoundPhase::Persist { .. }, RoundReport::Fault) => before.goes_on(
                after,
                before.persisted as int,
            ),
            _ => before == after,
        }
    }

    /// Begins a round, from the room's backward ends and the servers that have joined it. Without
    /// ends, or without other servers, or where reading either failed, there is none.
    pub fn begin(
        extremities: Option<Vec<String>>,
        servers: Option<Vec<String>>,
        own_server: &str,
        room_id: String,
        limit: u32,
    ) -> (round: Option<Round>)
        ensures
            ({
                let others = texts(servers->0@).filter(|s: Seq<char>| s != own_server@);
                if extremities is Some && extremities->0@.len() > 0 && servers is Some
                    && others.len() > 0 {
                    &&& round is Some
                    &&& round->0.wf()
                    &&& round->0.phase is Ask
                    &&& round->0.asked == 0
                    &&& round->0.persisted == 0
                    &&& round->0.room_id == room_id
                    &&& round->0.limit == limit
                    &&& texts(round->0.dests@) == others
                    &&& texts(round->0.seeds@) == texts(extremities->0@).take(
                        if extremities->0@.len() < MAX_SEEDS {
                            extremities->0@.len() as int
                        } else {
                            MAX_SEEDS as int
                        },
                    )
                } else {
                    round is None
                }
            }),
    {
        let seeds = match &extremities {
            Some(extremities) => {
                if extremities.len() == 0 {
                    return None;
                }
                first_texts(extremities, MAX_SEEDS)
            },
            None => return None,
        };
        let dests = match &servers {
            Some(servers) => other_servers(servers, own_server),
            None => return None,
        };
        assert(texts(dests@).len() == dests@.len());
        if dests.len() == 0 {
            return None;
        }
        Some(
            Round {
                room_id,
                seeds,
                limit,
                dests,
                asked: 0,
                pdus: Vec::new(),
                done: 0,
                persisted: 0,
                phase: RoundPhase::Ask,
            },
        )
    }

    /// What the round needs done now.
    pub fn action(&self) -> (action: RoundAction<'_>)
        requires
            self.wf(),
        ensures
            action == match self.phase {
                RoundPhase::Ask => RoundAction::Ask {
                    server: &self.dests@[self.asked as int],
                    room_id: &self.room_id,
                    seeds: &self.seeds,
                    limit: self.limit,
                },
                RoundPhase::Parse => RoundAction::Parse(&self.pdus@[self.done as int]),
                RoundPhase::LookUp { event } => RoundAction::LookUp(&event),
                RoundPhase::Persist { event } => RoundAction::Persist(&event),
                RoundPhase::Over => RoundAction::Stop(self.persisted),
            },
    {
        match &self.phase {
            RoundPhase::Ask => RoundAction::Ask {
                server: &self.dests[self.asked],
                room_id: &self.room_id,
                seeds: &self.seeds,
                limit: self.limit,
            },
            RoundPhase::Parse => RoundAction::Parse(&self.pdus[self.done]),
            RoundPhase::LookUp { event } => RoundAction::LookUp(event),
            RoundPhase::Persist { event } => RoundAction::Persist(event),
            RoundPhase::Over => RoundAction::Stop(self.persisted),
        }
    }

    /// The round after the event that is being dealt with.
    fn go_on(self, persisted: usize) -> (after: Round)
        requires
            self.wf(),
            self.done < self.cap(),
            persisted <= self.done + 1,
        ensures
            after.wf(),
            self.same_round(after),
            self.goes_on(after, persisted as int),
    {
        let done = self.done + 1;
        let phase = if done < self.pdus.len() && done < self.limit as usize {
            RoundPhase::Parse
        } else {
            RoundPhase::Over
        };
        Round {
            room_id: self.room_id,
            seeds: self.seeds,
            limit: self.limit,
            dests: self.dests,
            asked: self.asked,
            pdus: self.pdus,
            done,
            persisted,
            phase,
        }
    }

    /// The same round in another phase.
    fn turn(self, phase: RoundPhase) -> (after: Round)
        ensures
            self.same_round(after),
            self.stays(after),
            after.phase == phase,
    {
        Round {
            room_id: self.room_id,
            seeds: self.seeds,
            limit: self.limit,
            dests: self.dests,
            asked: self.asked,
            pdus: self.pdus,
            done: self.done,
            persisted: self.persisted,
            phase,
        }
    }

    /// Takes the round on from a report. A report that answers nothing that was asked changes
    /// nothing.
    pub fn step(self, report: RoundReport) -> (after: Round)
        requires
            self.wf(),
        ensures
            after.wf(),
            Round::follows(self, report, after),
    {
        let count = self.dests.len();
        match report {
            RoundReport::Answered(pdus) => match &self.phase {
                RoundPhase::Ask => {
                    let phase = if pdus.len() > 0 && self.limit > 0 {
                        RoundPhase::Parse
                    } else {
                        RoundPhase::Over
                    };
                    Round {
                        room_id: self.room_id,
                        seeds: self.seeds,
                        limit: self.limit,
                        dests: self.dests,
                        asked: self.asked + 1,
                        pdus,
                        done: 0,
                        persisted: self.persisted,
                        phase,
                    }
                },
                _ => self,
            },
            RoundReport::PeerFailed => match &self.phase {
                RoundPhase::Ask => {
                    let asked = self.asked + 1;
                    let phase = if asked < count {
                        RoundPhase::Ask
                    } else {
                        RoundPhase::Over
                    };
                    Round {
                        room_id: self.room_id,
                        seeds: self.seeds,
                        limit: self.limit,
                        dests: self.dests,
                        asked,
                        pdus: self.pdus,
                        done: self.done,
                        persisted: self.persisted,
                        phase,
                    }
                },
                _ => self,
            },
            RoundReport::Parsed(event) => match &self.phase {
                RoundPhase::Parse => {
                    if same_text(event.room_id.as_str(), self.room_id.as_str()) {
                        self.turn(RoundPhase::LookUp { event })
                    } else {
                        let persisted = self.persisted;
                        self.go_on(persisted)
                    }
                },
                _ => self,
            },
            RoundReport::Unparseable => match &self.phase {
                RoundPhase::Parse => {
                    let persisted = self.persisted;
                    self.go_on(persisted)
                },
                _ => self,
            },
            RoundReport::Held(held) => {
                let Round { room_id, seeds, limit, dests, asked, pdus, done, persisted, phase } =
                    self;
                match phase {
                    RoundPhase::LookUp { event } => {
                        if held {
                            Round {
                                room_id,
                                seeds,
                                limit,
                                dests,
                                asked,
                                pdus,
                                done,
                                persisted,
                                phase: RoundPhase::LookUp { event },
                            }.go_on(persisted)
                        } else {
                            Round {
                                room_id,
                                seeds,
                                limit,
                                dests,
                                asked,
                                pdus,
                                done,
                                persisted,
                                phase: RoundPhase::Persist { event },
                            }
                        }
                    },
                    phase => Round {
                        room_id,
                        seeds,
                        limit,
                        dests,
                        asked,
                        pdus,
                        done,
                        persisted,
                        phase,
                    },
                }
            },
            RoundReport::Stored => match &self.phase {
                RoundPhase::Persist { .. } => {
                    let persisted = self.persisted + 1;
                    self.go_on(persisted)
                },
                _ => self,
            },
            RoundReport::Fault => match &self.phase {
                RoundPhase::LookUp { .. } => {
                    let persisted = self.persisted;
                    self.go_on(persisted)
                },
                RoundPhase::Persist { .. } => {
                    let persisted = self.persisted;
                    self.go_on(persisted)
                },
                _ => self,
            },
        }
    }
}

/// A round stores no more events than were asked for, whatever a peer answers.
pub proof fn no_more_than_asked(round: Round)
    requires
        round.wf(),
    ensures
        round.persisted <= round.limit,
{
}

/// Only events of the room are stored: an event that is looked up or stored was parsed as one of
/// the room.
pub proof fn only_events_of_the_room(before: Round, report: RoundReport, after: Round)
    requires
        Round::follows(before, report, after),
        before.phase matches RoundPhase::LookUp { event } ==> event@.room_id == before.room_id@,
        before.phase matches RoundPhase::Persist { event } ==> event@.room_id == before.room_id@,
    ensures
        after.phase matches RoundPhase::LookUp { event } ==> event@.room_id == after.room_id@,
        after.phase matches RoundPhase::Persist { event } ==> event@.room_id == after.room_id@,
{
}

/// The next peer is asked only when the one before failed; the first that answers ends the asking.
pub proof fn first_answer_wins(before: Round, report: RoundReport, after: Round)
    requires
        before.wf(),
        Round::follows(before, report, after),
        after.phase is Ask,
    ensures
        before.phase is Ask,
        after == before || report is PeerFailed,
{
}

/// A step of a round does what the law of its machine says.
pub proof fn round_steps_by_the_law(before: Round, report: RoundReport, after: Round)
    requires
        call_ensures(Round::step, (before, report), after),
    ensures
        Round::follows(before, report, after),
        after.wf(),
{
}

/// Every other server of the room may be asked, in order, from the first on, and the round starts from
/// the room's backward ends, the first five at most.
pub proof fn every_other_server_may_be_asked(
    extremities: Vec<String>,
    servers: Vec<String>,
    own_server: &str,
    room_id: String,
    limit: u32,
    round: Option<Round>,
    i: int,
)
    requires
        call_ensures(
            Round::begin,
            (Some(extremities), Some(servers), own_server, room_id, limit),
            round,
        ),
        0 <= i < servers@.len(),
        servers@[i]@ != own_server@,
        extremities@.len() > 0,
    ensures
        round is Some,
        round->0.phase is Ask && round->0.asked == 0,
        round->0.done == 0 && round->0.persisted == 0,
        round->0.room_id == room_id && round->0.limit == limit,
        texts(round->0.dests@).contains(servers@[i]@),
        !texts(round->0.dests@).contains(own_server@),
        round->0.seeds@.len() == if extremities@.len() < 5 {
            extremities@.len()
        } else {
            5
        },
        forall|k: int|
            0 <= k < round->0.seeds@.len() ==> (#[trigger] round->0.seeds@[k])@ == extremities@[k]@,
{
    let keep = |s: Seq<char>| s != own_server@;
    let all = texts(servers@);
    let others = all.filter(keep);
    all.lemma_filter_contains(keep, i);
    assert(all[i] == servers@[i]@);
    if others.contains(own_server@) {
        let k = choose|k: int| 0 <= k < others.len() && others[k] == own_server@;
        all.lemma_filter_pred(keep, k);
    }
    assert(others.len() > 0);
    assert(texts(round->0.seeds@).len() == round->0.seeds@.len());
    assert forall|k: int| 0 <= k < round->0.seeds@.len() implies (#[trigger] round->0.seeds@[k])@
        == extremities@[k]@ by {
        assert(texts(round->0.seeds@)[k] == texts(extremities@)[k]);
    }
}

/// A peer that fails is followed by the next, and the round is over only after the last of them; the
/// first that answers is the one whose events are looked at.
pub proof fn next_peer_is_asked(before: Round, report: RoundReport, after: Round)
    requires
        before.wf(),
        Round::follows(before, report, after),
        before.phase is Ask,
    ensures
        report is PeerFailed && before.asked + 1 < before.dests@.len() ==> after.phase is Ask
            && after.asked == before.asked + 1,
        report is PeerFailed && before.asked + 1 == before.dests@.len() ==> after.phase is Over,
        report matches RoundReport::Answered(pdus) ==> after.pdus == pdus && after.done == 0
            && after.asked == before.asked + 1,
        after.seeds == before.seeds,
        report matches RoundReport::Answered(pdus) ==> (pdus@.len() > 0 && before.limit > 0
            <==> after.phase is Parse),
        after.persisted == before.persisted,
        after.dests == before.dests && after.limit == before.limit && after.room_id
            == before.room_id,
{
}

/// Every event of an answer is looked at, up to the limit: an event that is dealt with is followed by
/// the next, and the round is over only after the last of the answer or of the limit.
pub proof fn every_event_is_looked_at(before: Round, report: RoundReport, after: Round)
    requires
        before.wf(),
        Round::follows(before, report, after),
        before.phase is Parse || before.phase is LookUp || before.phase is Persist,
    ensures
        after.done == before.done || after.done == before.done + 1,
        after.pdus == before.pdus && after.limit == before.limit,
        after.asked == before.asked && after.dests == before.dests && after.seeds == before.seeds,
        after.done == before.done + 1 && after.done < before.pdus@.len() && after.done
            < before.limit ==> after.phase is Parse,
        after.phase is Over ==> after.done == before.done + 1 && (after.done == before.pdus@.len()
            || after.done == before.limit),
{
}

/// Whatever is new to this server is stored: an event of the room that is not held goes to the store,
/// and counts when it is taken. Passed over are events of other rooms, those that cannot be read,
/// those that are held, and those that the store failed at.
pub proof fn what_is_new_is_stored(before: Round, report: RoundReport, after: Round)
    requires
        before.wf(),
        Round::follows(before, report, after),
    ensures
        before.phase is Parse && (report matches RoundReport::Parsed(event) && event@.room_id
            == before.room_id@) ==> after.phase == (RoundPhase::LookUp {
            event: report->Parsed_0,
        }),
        before.phase is LookUp && report == RoundReport::Held(false) ==> after.phase == (
        RoundPhase::Persist { event: before.phase->LookUp_event }),
        before.phase is Persist && report is Stored ==> after.persisted == before.persisted + 1,
        after.persisted != before.persisted ==> before.phase is Persist && report is Stored,
        after.done == before.done + 1 ==> match before.phase {
            RoundPhase::Parse => report is Unparseable || (report matches RoundReport::Parsed(event)
                && event@.room_id != before.room_id@),
            RoundPhase::LookUp { .. } => report == RoundReport::Held(true) || report is Fault,
            RoundPhase::Persist { .. } => report is Stored || report is Fault,
            _ => false,
        },
{
}

} // verus!
