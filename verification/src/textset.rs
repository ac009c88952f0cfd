//! A set of texts, kept in order.

use vstd::prelude::*;

use crate::text::{at_most, same_text, text_le, text_le_total, text_le_transitive, texts};

verus! {

/// Texts in strictly rising order: each before the next, none twice.
pub open spec fn rising(items: Seq<Seq<char>>) -> bool {
    forall|i: int, j: int|
        0 <= i < j < items.len() ==> text_le(#[trigger] items[i], #[trigger] items[j]) && items[i]
            != items[j]
}

/// A set of texts.
#[derive(Debug, PartialEq, Eq)]
pub struct TextSet {
    items: Vec<String>,
}

impl View for TextSet {
    type V = Set<Seq<char>>;

    closed spec fn view(&self) -> Set<Seq<char>> {
        texts(self.items@).to_set()
    }
}

impl TextSet {
    /// The texts in their order.
    pub closed spec fn ordered(self) -> Seq<Seq<char>> {
        texts(self.items@)
    }

    /// The texts are in order, and no text occurs twice.
    #[verifier::type_invariant]
    closed spec fn in_order(self) -> bool {
        rising(texts(self.items@))
    }

    /// The empty set.
    pub fn new() -> (set: TextSet)
        ensures
            set@ == Set::<Seq<char>>::empty(),
    {
        let items: Vec<String> = Vec::new();
        assert(texts(items@).to_set() =~= Set::<Seq<char>>::empty());
        TextSet { items }
    }

    /// The position of the first text that does not come before `text`.
    fn place(&self, text: &str) -> (at: usize)
        ensures
            at <= self.items.len(),
            forall|i: int|
                0 <= i < at ==> text_le(#[trigger] texts(self.items@)[i], text@) && texts(self.items@)[i]
                    != text@,
            forall|i: int|
                at <= i < self.items.len() ==> text_le(text@, #[trigger] texts(self.items@)[i]),
    {
        proof {
            use_type_invariant(self);
        }
        let ghost all = texts(self.items@);
        let mut at: usize = 0;
        while at < self.items.len() && !at_most(text, self.items[at].as_str())
            invariant
                at <= self.items.len(),
                all == texts(self.items@),
                rising(all),
                forall|i: int|
                    0 <= i < at ==> text_le(#[trigger] all[i], text@) && all[i] != text@,
            decreases self.items.len() - at,
        {
            proof {
                text_le_total(text@, all[at as int]);
                assert(all[at as int] == self.items@[at as int]@);
            }
            at += 1;
        }
        proof {
            assert forall|i: int| at <= i < all.len() implies text_le(text@, #[trigger] all[i]) by {
                assert(text_le(text@, all[at as int]));
                if i > at {
                    text_le_transitive(text@, all[at as int], all[i]);
                }
            }
        }
        at
    }

    /// Whether a text is in the set.
    pub fn contains(&self, text: &str) -> (yes: bool)
        ensures
            yes == self@.contains(text@),
    {
        let at = self.place(text);
        proof {
            use_type_invariant(self);
        }
        let ghost all = texts(self.items@);
        if at < self.items.len() && same_text(self.items[at].as_str(), text) {
            assert(all[at as int] == text@);
            true
        } else {
            proof {
                if all.contains(text@) {
                    let i = choose|i: int| 0 <= i < all.len() && all[i] == text@;
                    if i > at {
                        assert(text_le(all[at as int], all[i]));
                        text_le_total(all[at as int], all[i]);
                    }
                }
            }
            false
        }
    }

    /// The set with a text put into it, and whether the text was new.
    pub fn insert(self, text: String) -> (outcome: (TextSet, bool))
        ensures
            outcome.0@ == self@.insert(text@),
            outcome.1 == !self@.contains(text@),
    {
        let at = self.place(text.as_str());
        proof {
            use_type_invariant(&self);
        }
        let ghost before = self.items@;
        let ghost all = texts(before);
        if self.contains(text.as_str()) {
            assert(self@ =~= self@.insert(text@));
            return (self, false);
        }
        proof {
            assert forall|i: int| at <= i < all.len() implies all[i] != text@ by {
                assert(all.contains(all[i]));
            }
        }
        let mut items = self.items;
        items.insert(at, text);
        proof {
            let now = texts(items@);
            assert(items@ =~= before.insert(at as int, text));
            assert(now =~= all.insert(at as int, text@));
            assert forall|i: int, j: int| 0 <= i < j < now.len() implies text_le(
                #[trigger] now[i],
                #[trigger] now[j],
            ) && now[i] != now[j] by {
                let a = if i < at {
                    i
                } else {
                    i - 1
                };
                let b = if j < at {
                    j
                } else {
                    j - 1
                };
                if i != at {
                    assert(now[i] == all[a]);
                }
                if j != at {
                    assert(now[j] == all[b]);
                }
            }
            assert forall|t: Seq<char>| now.to_set().contains(t) == all.to_set().insert(
                text@,
            ).contains(t) by {
                if all.contains(t) {
                    let i = choose|i: int| 0 <= i < all.len() && all[i] == t;
                    assert(now[if i < at {
                        i
                    } else {
                        i + 1
                    }] == t);
                }
                assert(now[at as int] == text@);
            }
            assert(now.to_set() =~= all.to_set().insert(text@));
        }
        (TextSet { items }, true)
    }

    /// The set with the texts of a list put into it.
    pub fn extend(self, more: &Vec<String>) -> (set: TextSet)
        ensures
            set@ == self@.union(texts(more@).to_set()),
    {
        let ghost all = texts(more@);
        let mut set = self;
        let mut i: usize = 0;
        assert(all.take(0).to_set() =~= Set::empty());
        assert(set@ =~= self@.union(all.take(0).to_set()));
        while i < more.len()
            invariant
                i <= more.len(),
                all == texts(more@),
                set@ == self@.union(all.take(i as int).to_set()),
            decreases more.len() - i,
        {
            let ghost before = set@;
            let (bigger, _) = set.insert(more[i].clone());
            set = bigger;
            proof {
                let next = all.take(i + 1);
                assert(next =~= all.take(i as int).push(all[i as int]));
                assert forall|t: Seq<char>| next.to_set().contains(t) == all.take(
                    i as int,
                ).to_set().insert(all[i as int]).contains(t) by {
                    if all.take(i as int).contains(t) {
                        let k = choose|k: int| 0 <= k < i && all.take(i as int)[k] == t;
                        assert(next[k] == t);
                    }
                    assert(next[i as int] == all[i as int]);
                }
                assert(next.to_set() =~= all.take(i as int).to_set().insert(all[i as int]));
                assert(set@ =~= self@.union(next.to_set()));
            }
            i += 1;
        }
        assert(all.take(i as int) =~= all);
        set
    }

    /// The set of the texts of a list.
    pub fn from_items(items: &Vec<String>) -> (set: TextSet)
        ensures
            set@ == texts(items@).to_set(),
    {
        let set = TextSet::new().extend(items);
        assert(set@ =~= texts(items@).to_set());
        set
    }

    /// How many members the set has.
    pub fn len(&self) -> (n: usize)
        ensures
            n == self@.len(),
    {
        proof {
            use_type_invariant(self);
            let all = texts(self.items@);
            assert(all.no_duplicates()) by {
                assert forall|i: int, j: int|
                    0 <= i < all.len() && 0 <= j < all.len() && i != j implies all[i] != all[j] by {
                    if i < j {
                        assert(text_le(all[i], all[j]) && all[i] != all[j]);
                    } else {
                        assert(text_le(all[j], all[i]) && all[j] != all[i]);
                    }
                }
            }
            all.unique_seq_to_set();
        }
        self.items.len()
    }

    /// Whether the set has no members.
    pub fn is_empty(&self) -> (yes: bool)
        ensures
            yes == (self@ == Set::<Seq<char>>::empty()),
    {
        proof {
            if self.items@.len() > 0 {
                assert(texts(self.items@).contains(texts(self.items@)[0]));
                assert(self@.contains(texts(self.items@)[0]));
            } else {
                assert(self@ =~= Set::empty());
            }
        }
        self.items.len() == 0
    }

    /// The members, in order.
    pub fn into_items(self) -> (items: Vec<String>)
        ensures
            texts(items@) == self.ordered(),
            rising(texts(items@)),
            texts(items@).to_set() == self@,
    {
        proof {
            use_type_invariant(&self);
        }
        self.items
    }

    /// A copy of the members, in order.
    pub fn items(&self) -> (items: Vec<String>)
        ensures
            texts(items@) == self.ordered(),
            rising(texts(items@)),
            texts(items@).to_set() == self@,
    {
        proof {
            use_type_invariant(self);
        }
        let items = self.items.clone();
        assert(texts(items@) =~= texts(self.items@));
        items
    }
}

/// Two strictly rising lists of the same texts are the same list.
pub proof fn rising_is_determined(a: Seq<Seq<char>>, b: Seq<Seq<char>>)
    requires
        rising(a),
        rising(b),
        a.to_set() == b.to_set(),
    ensures
        a == b,
    decreases a.len(),
{
    if a.len() == 0 {
        if b.len() > 0 {
            assert(b.contains(b[0]));
            assert(a.to_set().contains(b[0]));
        }
        assert(a =~= b);
    } else {
        assert(a.contains(a.last()));
        assert(b.to_set().contains(a.last()));
        let i = choose|i: int| 0 <= i < b.len() && b[i] == a.last();
        if i < b.len() - 1 {
            assert(b.contains(b.last()));
            assert(a.to_set().contains(b.last()));
            let j = choose|j: int| 0 <= j < a.len() && a[j] == b.last();
            assert(text_le(b[i], b.last()) && b[i] != b.last());
            if j < a.len() - 1 {
                assert(text_le(a[j], a.last()));
            }
            text_le_total(a.last(), b.last());
            assert(false);
        }
        let x = a.drop_last();
        let y = b.drop_last();
        assert(a =~= x.push(a.last()));
        assert(b =~= y.push(a.last()));
        assert forall|t: Seq<char>| x.to_set().contains(t) == y.to_set().contains(t) by {
            if x.contains(t) {
                let k = choose|k: int| 0 <= k < x.len() && x[k] == t;
                assert(a[k] == t && a[k] != a.last());
                assert(a.contains(t));
                assert(b.to_set().contains(t));
                let m = choose|m: int| 0 <= m < b.len() && b[m] == t;
                assert(y[m] == t);
            }
            if y.contains(t) {
                let k = choose|k: int| 0 <= k < y.len() && y[k] == t;
                assert(b[k] == t && b[k] != b.last());
                assert(b.contains(t));
                assert(a.to_set().contains(t));
                let m = choose|m: int| 0 <= m < a.len() && a[m] == t;
                assert(x[m] == t);
            }
        }
        assert(x.to_set() =~= y.to_set());
        rising_is_determined(x, y);
    }
}

} // verus!
