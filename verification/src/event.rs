//! Room events, and the heads of a room's event graphs.

use vstd::prelude::*;

use crate::json::{Json, JsonModel};
use crate::text::{same_text, texts};
use crate::textset::TextSet;

verus! {

/// An event of a room.
#[derive(Debug, PartialEq, Eq)]
pub struct Event {
    pub event_id: String,
    pub room_id: String,
    pub sender: String,
    pub event_type: String,
    pub state_key: Option<String>,
    pub content: Json,
    /// The event's parents on the timeline.
    pub prev_events: Vec<String>,
    /// The event's parents among the state events.
    pub prev_state_events: Vec<String>,
    pub rejected: bool,
    pub soft_failed: bool,
    /// The event as it travels, byte for byte.
    pub raw: String,
}

/// The view of an optional text.
pub open spec fn opt_text(text: Option<String>) -> Option<Seq<char>> {
    match text {
        Some(t) => Some(t@),
        None => None,
    }
}

/// Whether an optional text is a given one.
pub fn opt_is(text: &Option<String>, wanted: &str) -> (yes: bool)
    ensures
        yes == (opt_text(*text) == Some(wanted@)),
{
    match text {
        Some(t) => same_text(t.as_str(), wanted),
        None => false,
    }
}

/// What an event is.
pub struct EventModel {
    pub event_id: Seq<char>,
    pub room_id: Seq<char>,
    pub sender: Seq<char>,
    pub event_type: Seq<char>,
    pub state_key: Option<Seq<char>>,
    pub content: JsonModel,
    pub prev_events: Seq<Seq<char>>,
    pub prev_state_events: Seq<Seq<char>>,
    pub rejected: bool,
    pub soft_failed: bool,
    pub raw: Seq<char>,
}

impl View for Event {
    type V = EventModel;

    open spec fn view(&self) -> EventModel {
        EventModel {
            event_id: self.event_id@,
            room_id: self.room_id@,
            sender: self.sender@,
            event_type: self.event_type@,
            state_key: opt_text(self.state_key),
            content: self.content.model(),
            prev_events: texts(self.prev_events@),
            prev_state_events: texts(self.prev_state_events@),
            rejected: self.rejected,
            soft_failed: self.soft_failed,
            raw: self.raw@,
        }
    }
}

/// The events of a list.
pub open spec fn event_models(events: Seq<Event>) -> Seq<EventModel> {
    events.map_values(|e: Event| e@)
}

impl EventModel {
    /// Whether this is a member event.
    pub open spec fn is_member(self) -> bool {
        self.event_type == "m.room.member"@
    }

    /// The membership that the event's content gives.
    pub open spec fn membership(self) -> Option<Seq<char>> {
        self.content.text_at("membership"@)
    }
}

/// A copy of a list of texts.
pub fn copy_texts(items: &Vec<String>) -> (twins: Vec<String>)
    ensures
        texts(twins@) == texts(items@),
        twins@ == items@,
{
    let twins = items.clone();
    assert(twins@ =~= items@);
    twins
}

/// A copy of an optional text.
pub fn copy_opt(text: &Option<String>) -> (twin: Option<String>)
    ensures
        opt_text(twin) == opt_text(*text),
{
    match text {
        Some(t) => Some(t.clone()),
        None => None,
    }
}

/// Whether a list of texts holds a given one.
pub fn holds_text(items: &Vec<String>, wanted: &str) -> (yes: bool)
    ensures
        yes == texts(items@).contains(wanted@),
{
    let mut i: usize = 0;
    while i < items.len()
        invariant
            i <= items.len(),
            forall|j: int| 0 <= j < i ==> texts(items@)[j] != wanted@,
        decreases items.len() - i,
    {
        if same_text(items[i].as_str(), wanted) {
            assert(texts(items@)[i as int] == wanted@);
            return true;
        }
        i += 1;
    }
    false
}

impl Event {
    /// A copy of the event.
    pub fn copy(&self) -> (twin: Event)
        ensures
            twin@ == self@,
    {
        Event {
            event_id: self.event_id.clone(),
            room_id: self.room_id.clone(),
            sender: self.sender.clone(),
            event_type: self.event_type.clone(),
            state_key: copy_opt(&self.state_key),
            content: self.content.copy(),
            prev_events: copy_texts(&self.prev_events),
            prev_state_events: copy_texts(&self.prev_state_events),
            rejected: self.rejected,
            soft_failed: self.soft_failed,
            raw: self.raw.clone(),
        }
    }

    /// A text that the event's content gives.
    pub fn content_str(&self, key: &str) -> (text: Option<&String>)
        ensures
            match text {
                Some(text) => self@.content.text_at(key@) == Some(text@),
                None => self@.content.text_at(key@) is None,
            },
    {
        self.content.str_at(key)
    }

    /// Whether this is a member event.
    pub fn is_member(&self) -> (yes: bool)
        ensures
            yes == self@.is_member(),
    {
        same_text(self.event_type.as_str(), "m.room.member")
    }

    /// Whether the content gives this membership.
    pub fn has_membership(&self, membership: &str) -> (yes: bool)
        ensures
            yes == (self@.membership() == Some(membership@)),
    {
        match self.content_str("membership") {
            Some(m) => same_text(m.as_str(), membership),
            None => false,
        }
    }
}

/// The heads of a room: of its timeline, and of its state.
#[derive(Debug, PartialEq, Eq)]
pub struct ForwardExtremities {
    pub timeline: Vec<String>,
    pub state: Vec<String>,
}

/// What the heads of a room are.
pub struct Heads {
    pub timeline: Seq<Seq<char>>,
    pub state: Seq<Seq<char>>,
}

impl View for ForwardExtremities {
    type V = Heads;

    open spec fn view(&self) -> Heads {
        Heads { timeline: texts(self.timeline@), state: texts(self.state@) }
    }
}

impl Heads {
    /// Whether there is no head at all.
    pub open spec fn is_empty(self) -> bool {
        self.timeline.len() == 0 && self.state.len() == 0
    }

    /// These heads without those of `known`.
    pub open spec fn without(self, known: Set<Seq<char>>) -> Heads {
        Heads {
            timeline: self.timeline.filter(|id: Seq<char>| !known.contains(id)),
            state: self.state.filter(|id: Seq<char>| !known.contains(id)),
        }
    }
}

/// Rooms with their heads.
pub open spec fn advertisement(rooms: Seq<(String, ForwardExtremities)>) -> Seq<(Seq<char>, Heads)> {
    rooms.map_values(|r: (String, ForwardExtremities)| (r.0@, r.1@))
}

/// A list of identifiers without those of `known`.
pub fn without_known(ids: &Vec<String>, known: &TextSet) -> (rest: Vec<String>)
    ensures
        texts(rest@) == texts(ids@).filter(|id: Seq<char>| !known@.contains(id)),
{
    let ghost keep = |id: Seq<char>| !known@.contains(id);
    let mut rest: Vec<String> = Vec::new();
    let mut i: usize = 0;
    proof {
        reveal(Seq::filter);
        assert(texts(ids@).take(0) =~= Seq::empty());
        assert(texts(rest@) =~= Seq::empty());
    }
    while i < ids.len()
        invariant
            i <= ids.len(),
            keep == (|id: Seq<char>| !known@.contains(id)),
            texts(rest@) == texts(ids@).take(i as int).filter(keep),
        decreases ids.len() - i,
    {
        let ghost before = rest@;
        proof {
            reveal(Seq::filter);
            assert(texts(ids@).take(i + 1).drop_last() =~= texts(ids@).take(i as int));
            assert(texts(ids@).take(i + 1).last() == ids@[i as int]@);
        }
        if !known.contains(ids[i].as_str()) {
            rest.push(ids[i].clone());
            assert(texts(rest@) =~= texts(before).push(ids@[i as int]@));
        }
        i += 1;
    }
    assert(texts(ids@).take(i as int) =~= texts(ids@));
    rest
}

impl ForwardExtremities {
    /// Whether there is no head at all.
    pub fn is_empty(&self) -> (yes: bool)
        ensures
            yes == self@.is_empty(),
    {
        self.timeline.len() == 0 && self.state.len() == 0
    }

    /// A copy of the heads.
    pub fn copy(&self) -> (twin: ForwardExtremities)
        ensures
            twin@ == self@,
    {
        ForwardExtremities { timeline: copy_texts(&self.timeline), state: copy_texts(&self.state) }
    }

    /// The heads that are not in `known`.
    pub fn without(&self, known: &TextSet) -> (rest: ForwardExtremities)
        ensures
            rest@ == self@.without(known@),
    {
        ForwardExtremities {
            timeline: without_known(&self.timeline, known),
            state: without_known(&self.state, known),
        }
    }
}

/// Of some identifiers, those that are not known are left, and no other.
pub proof fn unknown_are_left(ids: Vec<String>, known: TextSet, rest: Vec<String>, id: Seq<char>)
    requires
        call_ensures(without_known, (&ids, &known), rest),
    ensures
        texts(rest@).contains(id) <==> texts(ids@).contains(id) && !known@.contains(id),
{
    let all = texts(ids@);
    let keep = |id: Seq<char>| !known@.contains(id);
    if all.contains(id) && !known@.contains(id) {
        let i = choose|i: int| 0 <= i < all.len() && all[i] == id;
        all.lemma_filter_contains(keep, i);
    }
    if texts(rest@).contains(id) {
        let i = choose|i: int| 0 <= i < texts(rest@).len() && texts(rest@)[i] == id;
        all.lemma_filter_pred(keep, i);
        all.lemma_filter_contains_rev(keep, id);
    }
}

/// The heads that are not known are left, of the timeline and of the state alike.
pub proof fn unknown_heads_are_left(
    heads: ForwardExtremities,
    known: TextSet,
    rest: ForwardExtremities,
    id: Seq<char>,
)
    requires
        call_ensures(ForwardExtremities::without, (&heads, &known), rest),
    ensures
        rest@.timeline.contains(id) <==> heads@.timeline.contains(id) && !known@.contains(id),
        rest@.state.contains(id) <==> heads@.state.contains(id) && !known@.contains(id),
{
    let keep = |id: Seq<char>| !known@.contains(id);
    left_of(heads@.timeline, rest@.timeline, keep, id);
    left_of(heads@.state, rest@.state, keep, id);
}

proof fn left_of(
    all: Seq<Seq<char>>,
    rest: Seq<Seq<char>>,
    keep: spec_fn(Seq<char>) -> bool,
    id: Seq<char>,
)
    requires
        rest == all.filter(keep),
    ensures
        rest.contains(id) <==> all.contains(id) && keep(id),
{
    if all.contains(id) && keep(id) {
        let i = choose|i: int| 0 <= i < all.len() && all[i] == id;
        all.lemma_filter_contains(keep, i);
    }
    if rest.contains(id) {
        let i = choose|i: int| 0 <= i < rest.len() && rest[i] == id;
        all.lemma_filter_pred(keep, i);
        all.lemma_filter_contains_rev(keep, id);
    }
}

/// An event is a member event if its type says so, and its membership is what its content says.
pub proof fn member_event_is_told(event: Event, membership: &str, is: bool, has: bool)
    requires
        call_ensures(Event::is_member, (&event,), is),
        call_ensures(Event::has_membership, (&event, membership), has),
    ensures
        is <==> event.event_type@ == "m.room.member"@,
        has <==> event.content.model().get("membership"@) == Some(JsonModel::Str(membership@)),
{
}

} // verus!
