//! Several servers in one process, with links between them that can be cut and healed.
//!
//! Each server is reached through a small proxy. The proxy reads who sends a request and refuses it
//! while the link between the two is cut; a refused request is one that its sender repeats. What is
//! read from the servers shows when they agree on the state of a room.

use vstd::prelude::*;

use crate::auth::x_matrix_value;
use crate::ids::{server_name_char, server_name_chars, valid_server_name};
use crate::json::{models, Json, JsonModel};
use crate::response::SERVICE_UNAVAILABLE;
use crate::table::Table;
use crate::text::{
    at_most, begins_with, chars_of, find, find_pattern, pattern_is_found_first, pattern_position,
    position, position_is,
    same_text, slice, text_le, text_le_total,
    text_le_transitive, text_of, texts,
};

verus! {

/// The two ends of a link, whichever is named first.
pub open spec fn link(a: Seq<char>, b: Seq<char>) -> (Seq<char>, Seq<char>) {
    if text_le(a, b) {
        (a, b)
    } else {
        (b, a)
    }
}

/// Canonical unordered key for a link between two server names.
pub fn pair(a: &str, b: &str) -> (ends: (String, String))
    ensures
        (ends.0@, ends.1@) == link(a@, b@),
{
    if at_most(a, b) {
        (a.to_owned(), b.to_owned())
    } else {
        (b.to_owned(), a.to_owned())
    }
}

/// A link has no direction.
pub proof fn link_is_symmetric(a: Seq<char>, b: Seq<char>)
    ensures
        link(a, b) == link(b, a),
{
    text_le_total(a, b);
}

/// The links that are cut.
#[derive(Debug, PartialEq, Eq)]
pub struct CutSet {
    pub links: Table<()>,
}

impl View for CutSet {
    type V = Set<(Seq<char>, Seq<char>)>;

    open spec fn view(&self) -> Set<(Seq<char>, Seq<char>)> {
        Set::new(|l: (Seq<char>, Seq<char>)| self.links@.contains_key(seq![l.0, l.1]))
    }
}

fn ends_of(a: &str, b: &str) -> (key: Vec<String>)
    ensures
        texts(key@) == seq![link(a@, b@).0, link(a@, b@).1],
{
    let (low, high) = pair(a, b);
    let mut key: Vec<String> = Vec::new();
    key.push(low);
    key.push(high);
    assert(texts(key@) =~= seq![link(a@, b@).0, link(a@, b@).1]);
    key
}

impl CutSet {
    /// No link is listed twice.
    pub open spec fn wf(self) -> bool {
        self.links.wf()
    }

    /// All links are up.
    pub fn new() -> (set: CutSet)
        ensures
            set.wf(),
            set@ == Set::<(Seq<char>, Seq<char>)>::empty(),
    {
        let set = CutSet { links: Table::new() };
        assert(set@ =~= Set::empty());
        set
    }

    /// Cuts the link between two servers.
    pub fn cut(&mut self, a: &str, b: &str)
        requires
            old(self).wf(),
        ensures
            final(self).wf(),
            final(self)@ == old(self)@.insert(link(a@, b@)),
    {
        let ghost before = *self;
        self.links.insert(ends_of(a, b), ());
        proof {
            let l = link(a@, b@);
            assert forall|other: (Seq<char>, Seq<char>)|
                self@.contains(other) == before@.insert(l).contains(other) by {
                if other != l {
                    assert(seq![other.0, other.1][0] == other.0);
                    assert(seq![other.0, other.1][1] == other.1);
                    assert(seq![l.0, l.1][0] == l.0);
                    assert(seq![l.0, l.1][1] == l.1);
                }
            }
            assert(self@ =~= before@.insert(l));
        }
    }

    /// Brings the link between two servers up again.
    pub fn heal(&mut self, a: &str, b: &str)
        requires
            old(self).wf(),
        ensures
            final(self).wf(),
            final(self)@ == old(self)@.remove(link(a@, b@)),
    {
        let ghost before = *self;
        self.links.remove(&ends_of(a, b));
        proof {
            let l = link(a@, b@);
            assert forall|other: (Seq<char>, Seq<char>)|
                self@.contains(other) == before@.remove(l).contains(other) by {
                if other != l {
                    assert(seq![other.0, other.1][0] == other.0);
                    assert(seq![other.0, other.1][1] == other.1);
                    assert(seq![l.0, l.1][0] == l.0);
                    assert(seq![l.0, l.1][1] == l.1);
                }
            }
            assert(self@ =~= before@.remove(l));
        }
    }

    /// Whether the link between two servers is cut.
    pub fn is_cut(&self, a: &str, b: &str) -> (yes: bool)
        ensures
            yes == self@.contains(link(a@, b@)),
    {
        self.links.get(&ends_of(a, b)).is_some()
    }
}

/// Healing undoes a cut, from either end, and leaves every other link as it was.
pub proof fn heal_undoes_cut(
    cuts: Set<(Seq<char>, Seq<char>)>,
    a: Seq<char>,
    b: Seq<char>,
    other: (Seq<char>, Seq<char>),
)
    ensures
        !cuts.insert(link(a, b)).remove(link(b, a)).contains(link(a, b)),
        other != link(a, b) ==> cuts.insert(link(a, b)).remove(link(b, a)).contains(other)
            == cuts.contains(other),
{
    link_is_symmetric(a, b);
}

/// The sender that a header names: what stands in quotes behind `origin=`.
pub open spec fn quoted_origin(value: Seq<char>) -> Option<Seq<char>> {
    let at = pattern_position(value, "origin=\""@, 0);
    if at > value.len() {
        None
    } else {
        let start = at + "origin=\""@.len();
        let end = position(value, '"', start);
        if end < value.len() {
            Some(value.subrange(start, end))
        } else {
            None
        }
    }
}

/// Extract the `origin` from an `X-Matrix origin="…",destination="…"` header.
pub fn x_matrix_origin(header: Option<&str>) -> (origin: Option<String>)
    ensures
        match origin {
            Some(origin) => header is Some && quoted_origin(header->Some_0@) == Some(origin@),
            None => header is None || quoted_origin(header->Some_0@) is None,
        },
{
    let s = match header {
        Some(value) => chars_of(value),
        None => return None,
    };
    proof {
        reveal_strlit("origin=\"");
    }
    match find_pattern(&s, "origin=\"") {
        Some(at) => {
            let start = at + 8;
            let end = find(&s, '"', start);
            if end < s.len() {
                Some(text_of(&slice(&s, start, end)))
            } else {
                None
            }
        },
        None => None,
    }
}

/// The proxy reads the sender as the sender's client wrote it.
pub proof fn proxy_reads_the_sender(origin: Seq<char>, dest: Seq<char>)
    requires
        valid_server_name(origin),
    ensures
        quoted_origin(x_matrix_value(origin, dest)) == Some(origin),
{
    server_name_chars(origin);
    reveal_strlit("origin=\"");
    reveal_strlit("X-Matrix origin=\"");
    reveal_strlit("\",destination=\"");
    let value = x_matrix_value(origin, dest);
    let name = "origin=\""@;
    assert forall|i: int| 0 <= i < 9 implies !begins_with(value.skip(i), name) by {
        assert(value.skip(i)[0] == "X-Matrix origin=\""@[i]);
        if begins_with(value.skip(i), name) {
            assert(value.skip(i).take(8)[0] == name[0]);
        }
    }
    assert(value.skip(9).take(8) =~= name);
    reveal_with_fuel(pattern_position, 10);
    assert(pattern_position(value, name, 0) == 9);
    assert forall|i: int| 17 <= i < 17 + origin.len() implies value[i] != '"' by {
        assert(value[i] == origin[i - 17]);
        assert(server_name_char(origin[i - 17]));
    }
    assert(value[17 + origin.len() as int] == '"');
    position_is(value, '"', 17, 17 + origin.len() as int);
    assert(value.subrange(17, 17 + origin.len() as int) =~= origin);
}

/// Whether the proxy of a server refuses a request: the link to the one who sends it is cut. A
/// request that names no sender is let through.
pub open spec fn refused(
    cuts: Set<(Seq<char>, Seq<char>)>,
    me: Seq<char>,
    header: Option<&str>,
) -> bool {
    header is Some && match quoted_origin(header->Some_0@) {
        Some(origin) => cuts.contains(link(me, origin)),
        None => false,
    }
}

/// What the proxy of a server answers by itself: that it is unavailable, and why. `None` where it
/// passes the request on.
pub fn proxy_refusal(cuts: &CutSet, me: &str, header: Option<&str>) -> (refusal: Option<
    (u16, &'static str),
>)
    ensures
        match refusal {
            Some((status, text)) => {
                &&& refused(cuts@, me@, header)
                &&& status == SERVICE_UNAVAILABLE
                &&& text@ == "partitioned"@
            },
            None => !refused(cuts@, me@, header),
        },
{
    match x_matrix_origin(header) {
        Some(origin) => {
            if cuts.is_cut(me, origin.as_str()) {
                Some((SERVICE_UNAVAILABLE, "partitioned"))
            } else {
                None
            }
        },
        None => None,
    }
}

/// Whether a header of a request is passed on as it is. The host and the length are those of the
/// request that the proxy makes.
pub fn is_forwarded(name: &str) -> (yes: bool)
    ensures
        yes == (name@ != "host"@ && name@ != "content-length"@),
{
    !same_text(name, "host") && !same_text(name, "content-length")
}

/// A piece of room state: its type, its state key, its event.
pub type Piece = (String, String, String);

/// A piece of room state, as its texts.
pub type PieceModel = (Seq<char>, Seq<char>, Seq<char>);

/// The texts of some pieces of state.
pub open spec fn pieces(items: Seq<Piece>) -> Seq<PieceModel> {
    items.map_values(|p: Piece| (p.0@, p.1@, p.2@))
}

/// The order of pieces of state: by type, then by state key, then by event.
pub open spec fn piece_le(a: PieceModel, b: PieceModel) -> bool {
    if a.0 != b.0 {
        text_le(a.0, b.0)
    } else if a.1 != b.1 {
        text_le(a.1, b.1)
    } else {
        text_le(a.2, b.2)
    }
}

/// Whether some pieces of state are in order.
pub open spec fn in_order(items: Seq<PieceModel>) -> bool {
    forall|i: int, j: int| 0 <= i <= j < items.len() ==> piece_le(items[i], items[j])
}

proof fn piece_le_total(a: PieceModel, b: PieceModel)
    ensures
        piece_le(a, a),
        piece_le(a, b) || piece_le(b, a),
        piece_le(a, b) && piece_le(b, a) ==> a == b,
{
    text_le_total(a.2, a.2);
    text_le_total(a.0, b.0);
    text_le_total(a.1, b.1);
    text_le_total(a.2, b.2);
}

proof fn piece_le_transitive(a: PieceModel, b: PieceModel, c: PieceModel)
    requires
        piece_le(a, b),
        piece_le(b, c),
    ensures
        piece_le(a, c),
{
    piece_le_total(a, b);
    piece_le_total(b, c);
    if a.0 != b.0 && b.0 != c.0 {
        text_le_transitive(a.0, b.0, c.0);
        text_le_total(a.0, b.0);
    } else if a.0 == b.0 && b.0 == c.0 {
        if a.1 != b.1 && b.1 != c.1 {
            text_le_transitive(a.1, b.1, c.1);
            text_le_total(a.1, b.1);
        } else if a.1 == b.1 && b.1 == c.1 {
            text_le_transitive(a.2, b.2, c.2);
        }
    }
}

fn piece_at_most(a: &Piece, b: &Piece) -> (le: bool)
    ensures
        le == piece_le((a.0@, a.1@, a.2@), (b.0@, b.1@, b.2@)),
{
    if !same_text(a.0.as_str(), b.0.as_str()) {
        at_most(a.0.as_str(), b.0.as_str())
    } else if !same_text(a.1.as_str(), b.1.as_str()) {
        at_most(a.1.as_str(), b.1.as_str())
    } else {
        at_most(a.2.as_str(), b.2.as_str())
    }
}

/// Puts a piece of state in its place among others that are in order.
fn insert_piece(items: &mut Vec<Piece>, piece: Piece)
    requires
        in_order(pieces(old(items)@)),
    ensures
        in_order(pieces(final(items)@)),
        pieces(final(items)@).to_multiset() == pieces(old(items)@).to_multiset().insert(
            (piece.0@, piece.1@, piece.2@),
        ),
{
    let ghost all = pieces(items@);
    let ghost new = (piece.0@, piece.1@, piece.2@);
    let mut at: usize = 0;
    while at < items.len() && piece_at_most(&items[at], &piece)
        invariant
            at <= items.len(),
            all == pieces(items@),
            new == (piece.0@, piece.1@, piece.2@),
            forall|i: int| 0 <= i < at ==> piece_le(#[trigger] all[i], new),
        decreases items.len() - at,
    {
        at += 1;
    }
    let ghost n = at as int;
    items.insert(at, piece);
    proof {
        let now = pieces(items@);
        assert(now =~= all.insert(n, new));
        vstd::seq_lib::to_multiset_insert(all, n, new);
        assert forall|i: int, j: int| 0 <= i <= j < now.len() implies piece_le(now[i], now[j]) by {
            piece_le_total(new, new);
            if n < all.len() {
                piece_le_total(all[n], new);
            }
            if i < n && j == n {
                assert(now[i] == all[i]);
            } else if i == n && j > n {
                assert(now[j] == all[j - 1]);
                assert(piece_le(all[n], all[j - 1]));
                piece_le_transitive(new, all[n], all[j - 1]);
            } else if i < n && j > n {
                assert(now[i] == all[i] && now[j] == all[j - 1]);
            } else if i > n {
                assert(now[i] == all[i - 1] && now[j] == all[j - 1]);
            } else if j < n {
                assert(now[i] == all[i] && now[j] == all[j]);
            }
        }
    }
}

/// The text of a member of an event, empty where there is none.
pub open spec fn shown_text(event: JsonModel, key: Seq<char>) -> Seq<char> {
    match event.text_at(key) {
        Some(text) => text,
        None => Seq::empty(),
    }
}

/// The piece of state that an event of a listing is.
pub open spec fn piece_of(event: JsonModel) -> PieceModel {
    (shown_text(event, "type"@), shown_text(event, "state_key"@), shown_text(event, "event_id"@))
}

/// The pieces of state that a listing shows, as they stand in it.
pub open spec fn listed(events: Seq<JsonModel>) -> Seq<PieceModel> {
    events.map_values(|e: JsonModel| piece_of(e))
}

fn text_or_empty(event: &Json, key: &str) -> (text: String)
    ensures
        text@ == shown_text(event.model(), key@),
{
    match event.str_at(key) {
        Some(text) => text.clone(),
        None => {
            proof {
                reveal_strlit("");
            }
            let empty = "".to_owned();
            assert(empty@ =~= Seq::empty());
            empty
        },
    }
}

/// The state that a server shows of a room, in order; `None` where it shows none.
pub fn state_map(state: Option<&Json>) -> (map: Option<Vec<Piece>>)
    ensures
        match map {
            Some(map) => {
                &&& state is Some && state->Some_0.model() is Array
                &&& in_order(pieces(map@))
                &&& pieces(map@).to_multiset() == listed(
                    state->Some_0.model().items(),
                ).to_multiset()
            },
            None => state is None || !(state->Some_0.model() is Array),
        },
{
    let events = match state {
        Some(Json::Array(events)) => events,
        _ => return None,
    };
    proof {
        Json::model_of_array(*events);
    }
    let ghost all = listed(models(events@));
    let mut map: Vec<Piece> = Vec::new();
    let mut i: usize = 0;
    assert(pieces(map@) =~= Seq::empty());
    assert(all.take(0) =~= Seq::empty());
    while i < events.len()
        invariant
            i <= events.len(),
            all == listed(models(events@)),
            in_order(pieces(map@)),
            pieces(map@).to_multiset() == all.take(i as int).to_multiset(),
        decreases events.len() - i,
    {
        let piece = (
            text_or_empty(&events[i], "type"),
            text_or_empty(&events[i], "state_key"),
            text_or_empty(&events[i], "event_id"),
        );
        let ghost new = (piece.0@, piece.1@, piece.2@);
        assert(new == all[i as int]);
        insert_piece(&mut map, piece);
        proof {
            assert(all.take(i + 1) =~= all.take(i as int).push(new));
            all.take(i as int).to_multiset_ensures();
        }
        i += 1;
    }
    assert(all.take(i as int) =~= all);
    Some(map)
}

/// Two servers that show the same pieces of state have the same map, in whatever order each
/// listed them.
pub proof fn same_state_same_map(a: Seq<PieceModel>, b: Seq<PieceModel>)
    requires
        in_order(a),
        in_order(b),
        a.to_multiset() == b.to_multiset(),
    ensures
        a == b,
    decreases a.len(),
{
    a.to_multiset_ensures();
    b.to_multiset_ensures();
    if a.len() == 0 {
        assert(a =~= b);
    } else {
        assert(a.to_multiset().contains(a.last())) by {
            assert(a.contains(a.last()));
        }
        assert(b.to_multiset().contains(b.last())) by {
            assert(b.contains(b.last()));
        }
        assert(b.contains(a.last()));
        assert(a.contains(b.last()));
        let i = choose|i: int| 0 <= i < b.len() && b[i] == a.last();
        let j = choose|j: int| 0 <= j < a.len() && a[j] == b.last();
        assert(piece_le(b[i], b[b.len() - 1]));
        assert(piece_le(a[j], a[a.len() - 1]));
        piece_le_total(a.last(), b.last());
        assert(a =~= a.drop_last().push(a.last()));
        assert(b =~= b.drop_last().push(b.last()));
        a.drop_last().to_multiset_ensures();
        b.drop_last().to_multiset_ensures();
        assert(a.to_multiset() =~= a.drop_last().to_multiset().insert(a.last()));
        assert(b.to_multiset() =~= b.drop_last().to_multiset().insert(a.last()));
        assert(a.drop_last().to_multiset() =~= a.to_multiset().remove(a.last()));
        assert(b.drop_last().to_multiset() =~= b.to_multiset().remove(a.last()));
        same_state_same_map(a.drop_last(), b.drop_last());
    }
}

/// The position of the last event of a listing that is of a type and, where one is asked for, has
/// a state key; -1 where there is none.
pub open spec fn last_of(events: Seq<JsonModel>, ty: Seq<char>, state_key: Option<Seq<char>>) -> int
    decreases events.len(),
{
    if events.len() == 0 {
        -1
    } else if events.last().text_at("type"@) == Some(ty) && (state_key is None
        || events.last().text_at("state_key"@) == state_key) {
        events.len() - 1
    } else {
        last_of(events.drop_last(), ty, state_key)
    }
}

/// What the last such event of a listing says in a member of its content.
pub open spec fn last_says(
    events: Seq<JsonModel>,
    ty: Seq<char>,
    state_key: Option<Seq<char>>,
    key: Seq<char>,
) -> Option<Seq<char>> {
    let at = last_of(events, ty, state_key);
    if at >= 0 {
        events[at].text_at2("content"@, key)
    } else {
        None
    }
}

fn find_last(
    events: &Vec<Json>,
    ty: &str,
    state_key: Option<&str>,
    key: &str,
) -> (text: Option<String>)
    ensures
        match text {
            Some(text) => last_says(
                models(events@),
                ty@,
                match state_key {
                    Some(k) => Some(k@),
                    None => None,
                },
                key@,
            ) == Some(text@),
            None => last_says(
                models(events@),
                ty@,
                match state_key {
                    Some(k) => Some(k@),
                    None => None,
                },
                key@,
            ) is None,
        },
{
    let ghost all = models(events@);
    let ghost wanted = match state_key {
        Some(k) => Some(k@),
        None => None,
    };
    let mut n: usize = events.len();
    assert(all.take(n as int) =~= all);
    while n > 0
        invariant
            n <= events.len(),
            all == models(events@),
            wanted == (match state_key {
                Some(k) => Some(k@),
                None => None,
            }),
            last_of(all, ty@, wanted) == last_of(all.take(n as int), ty@, wanted),
        decreases n,
    {
        let event = &events[n - 1];
        assert(all.take(n as int).last() == event.model());
        assert(all.take(n as int).drop_last() =~= all.take(n - 1));
        let of_type = match event.str_at("type") {
            Some(t) => same_text(t.as_str(), ty),
            None => false,
        };
        let of_key = match state_key {
            Some(k) => match event.str_at("state_key") {
                Some(s) => same_text(s.as_str(), k),
                None => false,
            },
            None => true,
        };
        if of_type && of_key {
            return match event.str_at2("content", key) {
                Some(text) => Some(text.clone()),
                None => None,
            };
        }
        n -= 1;
    }
    None
}

/// The name that a server shows of a room, if it shows the room's state and that names it.
pub fn current_name(state: Option<&Json>) -> (name: Option<String>)
    ensures
        match name {
            Some(name) => state is Some && last_says(
                state->Some_0.model().items(),
                "m.room.name"@,
                None,
                "name"@,
            ) == Some(name@),
            None => state is None || last_says(
                state->Some_0.model().items(),
                "m.room.name"@,
                None,
                "name"@,
            ) is None,
        },
{
    match state {
        Some(Json::Array(events)) => {
            proof {
                Json::model_of_array(*events);
            }
            find_last(events, "m.room.name", None, "name")
        },
        _ => None,
    }
}

/// The membership of a user that a server shows in a room: `leave` where it shows none, and
/// `unreadable` where it does not show the room's state.
pub open spec fn membership_shown(state: Option<&Json>, user: Seq<char>) -> Seq<char> {
    match state {
        Some(state) => match last_says(
            state.model().items(),
            "m.room.member"@,
            Some(user),
            "membership"@,
        ) {
            Some(membership) => membership,
            None => "leave"@,
        },
        None => "unreadable"@,
    }
}

/// The membership of a user that a server shows in a room.
pub fn membership(state: Option<&Json>, user: &str) -> (text: String)
    ensures
        text@ == membership_shown(state, user@),
{
    match state {
        Some(state) => {
            let found = match state {
                Json::Array(events) => {
                    proof {
                        Json::model_of_array(*events);
                    }
                    find_last(events, "m.room.member", Some(user), "membership")
                },
                _ => None,
            };
            match found {
                Some(membership) => membership,
                None => "leave".to_owned(),
            }
        },
        None => "unreadable".to_owned(),
    }
}

/// Whether all of some servers show a room's state, and the same state.
pub open spec fn agreed(maps: Seq<Option<Vec<Piece>>>) -> bool {
    &&& forall|i: int| 0 <= i < maps.len() ==> (#[trigger] maps[i]) is Some
    &&& forall|i: int, j: int|
        0 <= i < maps.len() && 0 <= j < maps.len() ==> pieces((#[trigger] maps[i])->Some_0@)
            == pieces((#[trigger] maps[j])->Some_0@)
}

fn same_pieces(a: &Vec<Piece>, b: &Vec<Piece>) -> (same: bool)
    ensures
        same == (pieces(a@) == pieces(b@)),
{
    if a.len() != b.len() {
        assert(pieces(a@).len() != pieces(b@).len());
        return false;
    }
    let mut i: usize = 0;
    while i < a.len()
        invariant
            i <= a.len() == b.len(),
            forall|j: int| 0 <= j < i ==> pieces(a@)[j] == pieces(b@)[j],
        decreases a.len() - i,
    {
        let x = &a[i];
        let y = &b[i];
        if !(same_text(x.0.as_str(), y.0.as_str()) && same_text(x.1.as_str(), y.1.as_str())
            && same_text(x.2.as_str(), y.2.as_str())) {
            assert(pieces(a@)[i as int] != pieces(b@)[i as int]);
            return false;
        }
        i += 1;
    }
    assert(pieces(a@) =~= pieces(b@));
    true
}

/// Whether the servers whose state was read agree.
pub fn converged(maps: &Vec<Option<Vec<Piece>>>) -> (yes: bool)
    ensures
        yes == agreed(maps@),
{
    let mut i: usize = 0;
    while i < maps.len()
        invariant
            i <= maps.len(),
            forall|k: int| 0 <= k < i ==> (#[trigger] maps@[k]) is Some,
            forall|k: int|
                0 <= k < i ==> pieces((#[trigger] maps@[k])->Some_0@) == pieces(
                    maps@[0]->Some_0@,
                ),
        decreases maps.len() - i,
    {
        match (&maps[0], &maps[i]) {
            (Some(first), Some(map)) => {
                if !same_pieces(first, map) {
                    assert(maps@[0] is Some && maps@[i as int] is Some);
                    return false;
                }
            },
            _ => {
                assert(maps@[0] is None || maps@[i as int] is None);
                return false;
            },
        }
        i += 1;
    }
    true
}

/// A link is the same from either end, and two links are the same only if they join the same two.
pub proof fn links_are_told_apart(a: Seq<char>, b: Seq<char>, c: Seq<char>, d: Seq<char>)
    ensures
        link(a, b) == link(c, d) <==> (a == c && b == d) || (a == d && b == c),
{
    text_le_total(a, b);
    text_le_total(c, d);
}

/// A request is refused exactly while the link to the server that it says it comes from is cut, and
/// then with the status 503.
pub proof fn refused_while_cut(
    cuts: CutSet,
    me: &str,
    header: &str,
    dest: Seq<char>,
    origin: &str,
    cut: bool,
    refusal: Option<(u16, &'static str)>,
)
    requires
        valid_server_name(origin@),
        header@ == x_matrix_value(origin@, dest),
        call_ensures(CutSet::is_cut, (&cuts, me, origin), cut),
        call_ensures(proxy_refusal, (&cuts, me, Some(header)), refusal),
    ensures
        refusal is Some <==> cut,
        refusal matches Some(said) ==> said.0 == 503,
{
    proxy_reads_the_sender(origin@, dest);
}

/// A request without a sender is let through.
pub proof fn unnamed_is_let_through(
    cuts: CutSet,
    me: &str,
    refusal: Option<(u16, &'static str)>,
)
    requires
        call_ensures(proxy_refusal, (&cuts, me, None), refusal),
    ensures
        refusal is None,
{
}

proof fn last_one_counts(events: Seq<JsonModel>, ty: Seq<char>, state_key: Option<Seq<char>>, at: int)
    requires
        -1 <= at < events.len(),
        at >= 0 ==> events[at].text_at("type"@) == Some(ty) && (state_key is None || events[at].text_at(
            "state_key"@,
        ) == state_key),
        forall|i: int|
            at < i < events.len() ==> !((#[trigger] events[i]).text_at("type"@) == Some(ty) && (
            state_key is None || events[i].text_at("state_key"@) == state_key)),
    ensures
        last_of(events, ty, state_key) == at,
    decreases events.len(),
{
    if events.len() > 0 && at < events.len() - 1 {
        assert(events[events.len() - 1] == events.last());
        let fewer = events.drop_last();
        assert forall|i: int| at < i < fewer.len() implies !((#[trigger] fewer[i]).text_at("type"@)
            == Some(ty) && (state_key is None || fewer[i].text_at("state_key"@) == state_key)) by {
            assert(fewer[i] == events[i]);
        }
        last_one_counts(fewer, ty, state_key, at);
    }
}

/// The membership that is shown of a user is what the last member event about them says: `leave`
/// where there is none, `unreadable` where nothing is shown.
pub proof fn last_membership_is_shown(
    events: Seq<JsonModel>,
    state: Json,
    user: &str,
    at: int,
    shown: String,
    unread: String,
)
    requires
        state.model() == JsonModel::Array(events),
        call_ensures(membership, (Some(&state), user), shown),
        call_ensures(membership, (None, user), unread),
        -1 <= at < events.len(),
        at >= 0 ==> events[at].text_at("type"@) == Some("m.room.member"@) && events[at].text_at(
            "state_key"@,
        ) == Some(user@),
        forall|i: int|
            at < i < events.len() ==> !((#[trigger] events[i]).text_at("type"@) == Some(
                "m.room.member"@,
            ) && events[i].text_at("state_key"@) == Some(user@)),
    ensures
        at < 0 ==> shown@ == "leave"@,
        at >= 0 ==> (events[at].text_at2("content"@, "membership"@) matches Some(said)
            ==> shown@ == said),
        at >= 0 ==> (events[at].text_at2("content"@, "membership"@) is None ==> shown@ == "leave"@),
        unread@ == "unreadable"@,
{
    last_one_counts(events, "m.room.member"@, Some(user@), at);
}

/// The name that is shown of a room is what its last name event says.
pub proof fn last_name_is_shown(
    events: Seq<JsonModel>,
    state: Json,
    at: int,
    name: Option<String>,
)
    requires
        state.model() == JsonModel::Array(events),
        call_ensures(current_name, (Some(&state),), name),
        -1 <= at < events.len(),
        at >= 0 ==> events[at].text_at("type"@) == Some("m.room.name"@),
        forall|i: int|
            at < i < events.len() ==> (#[trigger] events[i]).text_at("type"@) != Some(
                "m.room.name"@,
            ),
    ensures
        at < 0 ==> name is None,
        at >= 0 ==> (events[at].text_at2("content"@, "name"@) matches Some(said) ==> name is Some
            && name->0@ == said),
        at >= 0 ==> (events[at].text_at2("content"@, "name"@) is None ==> name is None),
{
    last_one_counts(events, "m.room.name"@, None, at);
}

/// Each event of a listing is a piece of the state that it shows, under its type, its key and its
/// identifier.
pub proof fn each_event_is_a_piece(
    events: Seq<JsonModel>,
    state: Json,
    map: Option<Vec<Piece>>,
    i: int,
    event_type: Seq<char>,
    key: Seq<char>,
    id: Seq<char>,
)
    requires
        state.model() == JsonModel::Array(events),
        call_ensures(state_map, (Some(&state),), map),
        0 <= i < events.len(),
        events[i].text_at("type"@) == Some(event_type),
        events[i].text_at("state_key"@) == Some(key),
        events[i].text_at("event_id"@) == Some(id),
    ensures
        map is Some,
        map->0@.len() == events.len(),
        pieces(map->0@).contains((event_type, key, id)),
{
    let all = listed(events);
    let shown = pieces(map->0@);
    assert(all[i] == (event_type, key, id));
    all.to_multiset_ensures();
    shown.to_multiset_ensures();
    assert(all.contains((event_type, key, id)));
    assert(shown.to_multiset().contains((event_type, key, id)));
    assert(shown.to_multiset().len() == all.to_multiset().len());
}

/// Servers agree exactly if each of them shows the room's state and all show what the first shows.
pub proof fn agree_on_everything(maps: Vec<Option<Vec<Piece>>>, yes: bool)
    requires
        call_ensures(converged, (&maps,), yes),
    ensures
        yes <==> forall|i: int|
            0 <= i < maps@.len() ==> (#[trigger] maps@[i]) is Some && pieces(maps@[i]->0@) == pieces(
                maps@[0]->0@,
            ),
{
    if forall|i: int|
        0 <= i < maps@.len() ==> (#[trigger] maps@[i]) is Some && pieces(maps@[i]->0@) == pieces(
            maps@[0]->0@,
        ) {
        assert(agreed(maps@));
    }
}

/// Cutting a link and healing it changes that link, from either end, and no other.
pub proof fn cutting_and_healing(
    cutting: &mut CutSet,
    healing: &mut CutSet,
    a: &str,
    b: &str,
    c: Seq<char>,
    d: Seq<char>,
)
    requires
        call_ensures(CutSet::cut, (cutting, a, b), ()),
        call_ensures(CutSet::heal, (healing, a, b), ()),
    ensures
        final(cutting)@.contains(link(a@, b@)) && final(cutting)@.contains(link(b@, a@)),
        !final(healing)@.contains(link(a@, b@)) && !final(healing)@.contains(link(b@, a@)),
        !((a@ == c && b@ == d) || (a@ == d && b@ == c)) ==> {
            &&& final(cutting)@.contains(link(c, d)) == old(cutting)@.contains(link(c, d))
            &&& final(healing)@.contains(link(c, d)) == old(healing)@.contains(link(c, d))
        },
{
    link_is_symmetric(a@, b@);
    links_are_told_apart(a@, b@, c, d);
}

/// A request whose header names no sender in quotes is let through.
pub proof fn unquoted_is_let_through(
    cuts: CutSet,
    me: &str,
    header: &str,
    refusal: Option<(u16, &'static str)>,
)
    requires
        call_ensures(proxy_refusal, (&cuts, me, Some(header)), refusal),
        !header@.contains('"'),
    ensures
        refusal is None,
{
    let name = "origin=\""@;
    reveal_strlit("origin=\"");
    pattern_is_found_first(header@, name, 0);
    let at = pattern_position(header@, name, 0);
    if at <= header@.len() {
        assert(header@.skip(at).take(8) =~= name);
        assert(header@.skip(at).take(8)[7] == '"');
        assert(header@[at + 7] == '"');
    }
}

} // verus!
