//! JSON values, as plain data.

use vstd::prelude::*;

use crate::text::{
    bounded_number, char_views, chars_of, decimal, decimal_is_digits, digit, nothing_is_replaced,
    number_of_decimal, parse_number, pieces, pieces_are_between_separators, replace_all, replaced,
    same_text, split, split_on, text_of, texts,
};

verus! {

/// A JSON value. A number is kept as it is written; an object is a list of its members.
#[derive(Debug, PartialEq, Eq)]
pub enum Json {
    Null,
    Bool(bool),
    Number(String),
    Str(String),
    Array(Vec<Json>),
    Object(Vec<(String, Json)>),
}

/// What a JSON value is.
pub enum JsonModel {
    Null,
    Bool(bool),
    Number(Seq<char>),
    Str(Seq<char>),
    Array(Seq<JsonModel>),
    Object(Seq<(Seq<char>, JsonModel)>),
}

/// The values of an array.
pub open spec fn models(items: Seq<Json>) -> Seq<JsonModel> {
    items.map_values(|j: Json| j.model())
}

/// The members of an object.
pub open spec fn member_models(items: Seq<(String, Json)>) -> Seq<(Seq<char>, JsonModel)> {
    items.map_values(|m: (String, Json)| (m.0@, m.1.model()))
}

impl Json {
    /// The value that this JSON is.
    pub open spec fn model(self) -> JsonModel
        decreases self,
    {
        match self {
            Json::Null => JsonModel::Null,
            Json::Bool(b) => JsonModel::Bool(b),
            Json::Number(n) => JsonModel::Number(n@),
            Json::Str(s) => JsonModel::Str(s@),
            Json::Array(items) => JsonModel::Array(
                Seq::new(
                    items@.len(),
                    |i: int|
                        if 0 <= i < items@.len() {
                            items@[i].model()
                        } else {
                            JsonModel::Null
                        },
                ),
            ),
            Json::Object(members) => JsonModel::Object(
                Seq::new(
                    members@.len(),
                    |i: int|
                        if 0 <= i < members@.len() {
                            (members@[i].0@, members@[i].1.model())
                        } else {
                            (Seq::empty(), JsonModel::Null)
                        },
                ),
            ),
        }
    }
}

/// The first position at or after `from` of a member called `key`, or the number of members.
pub open spec fn member_position(
    members: Seq<(Seq<char>, JsonModel)>,
    key: Seq<char>,
    from: int,
) -> int
    decreases members.len() - from,
{
    if from < 0 || from >= members.len() {
        members.len() as int
    } else if members[from].0 == key {
        from
    } else {
        member_position(members, key, from + 1)
    }
}

/// What `member_position` finds is in range and is called `key`; nothing before it is.
pub proof fn member_position_is_first(
    members: Seq<(Seq<char>, JsonModel)>,
    key: Seq<char>,
    from: int,
)
    requires
        0 <= from <= members.len(),
    ensures
        from <= member_position(members, key, from) <= members.len(),
        member_position(members, key, from) < members.len() ==> members[member_position(
            members,
            key,
            from,
        )].0 == key,
        forall|i: int|
            from <= i < member_position(members, key, from) ==> (#[trigger] members[i]).0 != key,
    decreases members.len() - from,
{
    if from < members.len() && members[from].0 != key {
        member_position_is_first(members, key, from + 1);
    }
}

/// The member called `key` at position `at` is the first one if nothing before it is called so.
pub proof fn member_position_is(
    members: Seq<(Seq<char>, JsonModel)>,
    key: Seq<char>,
    from: int,
    at: int,
)
    requires
        0 <= from <= at <= members.len(),
        at < members.len() ==> members[at].0 == key,
        forall|i: int| from <= i < at ==> (#[trigger] members[i]).0 != key,
    ensures
        member_position(members, key, from) == at,
    decreases at - from,
{
    if from < at {
        member_position_is(members, key, from + 1, at);
    }
}

/// The members of an object after `key` has been given a value: in its old place, or at the end.
pub open spec fn with_member(
    members: Seq<(Seq<char>, JsonModel)>,
    key: Seq<char>,
    value: JsonModel,
) -> Seq<(Seq<char>, JsonModel)> {
    let at = member_position(members, key, 0);
    if at < members.len() {
        members.update(at, (key, value))
    } else {
        members.push((key, value))
    }
}

impl JsonModel {
    /// The members of an object; any other value has none.
    pub open spec fn members(self) -> Seq<(Seq<char>, JsonModel)> {
        match self {
            JsonModel::Object(members) => members,
            _ => Seq::empty(),
        }
    }

    /// The value of a member of an object.
    pub open spec fn get(self, key: Seq<char>) -> Option<JsonModel> {
        let at = member_position(self.members(), key, 0);
        if at < self.members().len() {
            Some(self.members()[at].1)
        } else {
            None
        }
    }

    /// A field of a record. A record travels as an object, which names its fields, or as an array,
    /// which gives them in their order.
    pub open spec fn field(self, key: Seq<char>, at: int) -> Option<JsonModel> {
        match self {
            JsonModel::Array(items) => if 0 <= at < items.len() {
                Some(items[at])
            } else {
                None
            },
            _ => self.get(key),
        }
    }

    /// Whether this is a record of some fields: as an object it may lack any of them and hold
    /// others; as an array it has at least some of them and no more than all.
    pub open spec fn is_record(self, least: nat, most: nat) -> bool {
        match self {
            JsonModel::Array(items) => least <= items.len() <= most,
            JsonModel::Object(_) => true,
            _ => false,
        }
    }

    /// The text of a string value.
    pub open spec fn text(self) -> Option<Seq<char>> {
        match self {
            JsonModel::Str(s) => Some(s),
            _ => None,
        }
    }

    /// The text of a member that is a string.
    pub open spec fn text_at(self, key: Seq<char>) -> Option<Seq<char>> {
        match self.get(key) {
            Some(value) => value.text(),
            None => None,
        }
    }

    /// The value as a whole number from 0 to `u64::MAX`.
    pub open spec fn whole(self) -> Option<nat> {
        match self {
            JsonModel::Number(n) => bounded_number(n, u64::MAX as nat),
            _ => None,
        }
    }

    /// The items of an array; any other value has none.
    pub open spec fn items(self) -> Seq<JsonModel> {
        match self {
            JsonModel::Array(items) => items,
            _ => Seq::empty(),
        }
    }

    /// The text at a path of two steps.
    pub open spec fn text_at2(self, outer: Seq<char>, inner: Seq<char>) -> Option<Seq<char>> {
        match self.get(outer) {
            Some(value) => value.text_at(inner),
            None => None,
        }
    }

    /// Whether a member is the value `true`.
    pub open spec fn is_true_at(self, key: Seq<char>) -> bool {
        self.get(key) == Some(JsonModel::Bool(true))
    }

    /// This object with a member set; any other value is left as it is.
    pub open spec fn with(self, key: Seq<char>, value: JsonModel) -> JsonModel {
        match self {
            JsonModel::Object(members) => JsonModel::Object(with_member(members, key, value)),
            other => other,
        }
    }

    /// This object without its member called `key`.
    pub open spec fn without(self, key: Seq<char>) -> JsonModel {
        match self {
            JsonModel::Object(members) => {
                let at = member_position(members, key, 0);
                if at < members.len() {
                    JsonModel::Object(members.remove(at))
                } else {
                    self
                }
            },
            other => other,
        }
    }
}

/// What has been set is what is read, and no other member changes.
pub proof fn get_after_with(object: JsonModel, key: Seq<char>, value: JsonModel, other: Seq<char>)
    requires
        object is Object,
    ensures
        object.with(key, value).get(key) == Some(value),
        other != key ==> object.with(key, value).get(other) == object.get(other),
{
    let before = object.members();
    let after = object.with(key, value).members();
    member_position_is_first(before, key, 0);
    let at = member_position(before, key, 0);
    member_position_is(after, key, 0, at);
    if other != key {
        member_position_is_first(before, other, 0);
        let o = member_position(before, other, 0);
        if o < before.len() {
            member_position_is(after, other, 0, o);
        } else {
            member_position_is(after, other, 0, after.len() as int);
        }
    }
}

impl Json {
    /// The value as an array of models agrees with the models of its items.
    pub proof fn model_of_array(items: Vec<Json>)
        ensures
            Json::Array(items).model() == JsonModel::Array(models(items@)),
    {
        assert(Json::Array(items).model()->Array_0 =~= models(items@));
    }

    /// The value as an object agrees with the models of its members.
    pub proof fn model_of_object(members: Vec<(String, Json)>)
        ensures
            Json::Object(members).model() == JsonModel::Object(member_models(members@)),
    {
        assert(Json::Object(members).model()->Object_0 =~= member_models(members@));
    }

    /// A string value.
    pub fn string(s: &str) -> (value: Json)
        ensures
            value.model() == JsonModel::Str(s@),
    {
        Json::Str(s.to_owned())
    }

    /// A number, as it is written.
    pub fn number(s: &str) -> (value: Json)
        ensures
            value.model() == JsonModel::Number(s@),
    {
        Json::Number(s.to_owned())
    }

    /// An object without members.
    pub fn empty_object() -> (value: Json)
        ensures
            value.model() == JsonModel::Object(Seq::empty()),
    {
        let members: Vec<(String, Json)> = Vec::new();
        proof {
            Json::model_of_object(members);
            assert(member_models(members@) =~= Seq::empty());
        }
        Json::Object(members)
    }

    /// An array of some values.
    pub fn array(items: Vec<Json>) -> (value: Json)
        ensures
            value.model() == JsonModel::Array(models(items@)),
    {
        proof {
            Json::model_of_array(items);
        }
        Json::Array(items)
    }

    /// An object of some members.
    pub fn object(members: Vec<(String, Json)>) -> (value: Json)
        ensures
            value.model() == JsonModel::Object(member_models(members@)),
    {
        proof {
            Json::model_of_object(members);
        }
        Json::Object(members)
    }

    /// An object with one member.
    pub fn single(key: &str, value: Json) -> (object: Json)
        ensures
            object.model() == JsonModel::Object(seq![(key@, value.model())]),
    {
        let object = Json::empty_object().and(key, value);
        assert(object.model()->Object_0 =~= seq![(key@, value.model())]);
        object
    }

    /// The object with one more member after the others. (`key` is new to it.)
    pub fn and(self, key: &str, value: Json) -> (object: Json)
        ensures
            object.model() == (match self.model() {
                JsonModel::Object(members) => JsonModel::Object(
                    members.push((key@, value.model())),
                ),
                other => other,
            }),
    {
        match self {
            Json::Object(members) => {
                let mut members = members;
                proof {
                    Json::model_of_object(members);
                }
                let ghost before = members@;
                members.push((key.to_owned(), value));
                proof {
                    Json::model_of_object(members);
                    assert(member_models(members@) =~= member_models(before).push(
                        (key@, value.model()),
                    ));
                }
                Json::Object(members)
            },
            other => other,
        }
    }

    /// A field of a record.
    pub fn field(&self, key: &str, at: usize) -> (value: Option<&Json>)
        ensures
            match value {
                Some(value) => self.model().field(key@, at as int) == Some(value.model()),
                None => self.model().field(key@, at as int) is None,
            },
    {
        match self {
            Json::Array(items) => {
                proof {
                    Json::model_of_array(*items);
                }
                if at < items.len() {
                    Some(&items[at])
                } else {
                    None
                }
            },
            _ => self.get(key),
        }
    }

    /// Whether this is a record of some fields.
    pub fn is_record(&self, least: usize, most: usize) -> (yes: bool)
        ensures
            yes == self.model().is_record(least as nat, most as nat),
    {
        match self {
            Json::Array(items) => {
                proof {
                    Json::model_of_array(*items);
                }
                least <= items.len() && items.len() <= most
            },
            Json::Object(_) => true,
            _ => false,
        }
    }

    /// The value of a member of an object.
    pub fn get(&self, key: &str) -> (value: Option<&Json>)
        ensures
            match value {
                Some(value) => self.model().get(key@) == Some(value.model()),
                None => self.model().get(key@) is None,
            },
    {
        match self {
            Json::Object(members) => {
                proof {
                    Json::model_of_object(*members);
                }
                let mut i: usize = 0;
                while i < members.len()
                    invariant
                        i <= members.len(),
                        self.model() == JsonModel::Object(member_models(members@)),
                        member_position(member_models(members@), key@, 0) == member_position(
                            member_models(members@),
                            key@,
                            i as int,
                        ),
                    decreases members.len() - i,
                {
                    if same_text(members[i].0.as_str(), key) {
                        return Some(&members[i].1);
                    }
                    i += 1;
                }
                None
            },
            _ => None,
        }
    }

    /// The text of a string value.
    pub fn as_str(&self) -> (text: Option<&String>)
        ensures
            match text {
                Some(text) => self.model().text() == Some(text@),
                None => self.model().text() is None,
            },
    {
        match self {
            Json::Str(s) => Some(s),
            _ => None,
        }
    }

    /// The text of a member that is a string.
    pub fn str_at(&self, key: &str) -> (text: Option<&String>)
        ensures
            match text {
                Some(text) => self.model().text_at(key@) == Some(text@),
                None => self.model().text_at(key@) is None,
            },
    {
        match self.get(key) {
            Some(value) => value.as_str(),
            None => None,
        }
    }

    /// The value as a whole number from 0 to `u64::MAX`.
    pub fn as_u64(&self) -> (n: Option<u64>)
        ensures
            match n {
                Some(n) => self.model().whole() == Some(n as nat),
                None => self.model().whole() is None,
            },
    {
        match self {
            Json::Number(n) => parse_number(n.as_str(), u64::MAX),
            _ => None,
        }
    }

    /// The text at a path of two steps.
    pub fn str_at2(&self, outer: &str, inner: &str) -> (text: Option<&String>)
        ensures
            match text {
                Some(text) => self.model().text_at2(outer@, inner@) == Some(text@),
                None => self.model().text_at2(outer@, inner@) is None,
            },
    {
        match self.get(outer) {
            Some(value) => value.str_at(inner),
            None => None,
        }
    }

    /// Whether a member is the value `true`.
    pub fn true_at(&self, key: &str) -> (yes: bool)
        ensures
            yes == self.model().is_true_at(key@),
    {
        match self.get(key) {
            Some(Json::Bool(b)) => *b,
            _ => false,
        }
    }

    /// A copy of the value.
    pub fn copy(&self) -> (twin: Json)
        ensures
            twin.model() == self.model(),
        decreases self,
    {
        match self {
            Json::Null => Json::Null,
            Json::Bool(b) => Json::Bool(*b),
            Json::Number(n) => Json::Number(n.clone()),
            Json::Str(s) => Json::Str(s.clone()),
            Json::Array(items) => {
                let mut twins: Vec<Json> = Vec::new();
                let mut i: usize = 0;
                while i < items.len()
                    invariant
                        i <= items.len(),
                        self == Json::Array(*items),
                        models(twins@) == models(items@).take(i as int),
                    decreases items.len() - i,
                {
                    let ghost before = twins@;
                    assert(decreases_to!(*self => self->Array_0));
                    assert(decreases_to!(*items => items[i as int]));
                    twins.push(items[i].copy());
                    assert(models(twins@) =~= models(before).push(items@[i as int].model()));
                    assert(models(items@).take(i + 1) =~= models(items@).take(i as int).push(
                        items@[i as int].model(),
                    ));
                    i += 1;
                }
                proof {
                    Json::model_of_array(*items);
                    Json::model_of_array(twins);
                    assert(models(items@).take(i as int) =~= models(items@));
                }
                Json::Array(twins)
            },
            Json::Object(members) => {
                let mut twins: Vec<(String, Json)> = Vec::new();
                let mut i: usize = 0;
                while i < members.len()
                    invariant
                        i <= members.len(),
                        self == Json::Object(*members),
                        member_models(twins@) == member_models(members@).take(i as int),
                    decreases members.len() - i,
                {
                    let ghost before = twins@;
                    assert(decreases_to!(*self => self->Object_0));
                    assert(decreases_to!(*members => members[i as int]));
                    let key = members[i].0.clone();
                    let value = members[i].1.copy();
                    twins.push((key, value));
                    let ghost next = (members@[i as int].0@, members@[i as int].1.model());
                    assert(member_models(twins@) =~= member_models(before).push(next));
                    assert(member_models(members@).take(i + 1) =~= member_models(members@).take(
                        i as int,
                    ).push(next));
                    i += 1;
                }
                proof {
                    Json::model_of_object(*members);
                    Json::model_of_object(twins);
                    assert(member_models(members@).take(i as int) =~= member_models(members@));
                }
                Json::Object(twins)
            },
        }
    }

    /// This object with a member set; any other value is left as it is.
    pub fn with(self, key: &str, value: Json) -> (object: Json)
        ensures
            object.model() == self.model().with(key@, value.model()),
    {
        match self {
            Json::Object(members) => {
                let mut members = members;
                let ghost before = member_models(members@);
                proof {
                    Json::model_of_object(members);
                }
                let mut i: usize = 0;
                while i < members.len()
                    invariant
                        i <= members.len(),
                        before == member_models(members@),
                        self.model() == JsonModel::Object(before),
                        member_position(before, key@, 0) == member_position(before, key@, i as int),
                    decreases members.len() - i,
                {
                    if same_text(members[i].0.as_str(), key) {
                        members.set(i, (key.to_owned(), value));
                        proof {
                            Json::model_of_object(members);
                            assert(member_models(members@) =~= before.update(
                                i as int,
                                (key@, value.model()),
                            ));
                        }
                        return Json::Object(members);
                    }
                    i += 1;
                }
                members.push((key.to_owned(), value));
                proof {
                    Json::model_of_object(members);
                    assert(member_models(members@) =~= before.push((key@, value.model())));
                }
                Json::Object(members)
            },
            other => other,
        }
    }

    /// This object without its member called `key`.
    pub fn without(self, key: &str) -> (object: Json)
        ensures
            object.model() == self.model().without(key@),
    {
        match self {
            Json::Object(members) => {
                let mut members = members;
                let ghost before = member_models(members@);
                proof {
                    Json::model_of_object(members);
                }
                let mut i: usize = 0;
                while i < members.len()
                    invariant
                        i <= members.len(),
                        before == member_models(members@),
                        self.model() == JsonModel::Object(before),
                        member_position(before, key@, 0) == member_position(before, key@, i as int),
                    decreases members.len() - i,
                {
                    if same_text(members[i].0.as_str(), key) {
                        members.remove(i);
                        proof {
                            Json::model_of_object(members);
                            assert(member_models(members@) =~= before.remove(i as int));
                        }
                        return Json::Object(members);
                    }
                    i += 1;
                }
                proof {
                    Json::model_of_object(members);
                }
                Json::Object(members)
            },
            other => other,
        }
    }
}

/// One step of a pointer, as it is meant: `~1` stands for a slash, `~0` for a tilde.
pub open spec fn unescaped_step(step: Seq<char>) -> Seq<char> {
    replaced(replaced(step, "~1"@, '/'), "~0"@, '~')
}

/// The steps of a pointer that begins with a slash.
pub open spec fn pointer_steps(pointer: Seq<char>) -> Seq<Seq<char>> {
    split(pointer, '/').skip(1).map_values(|step: Seq<char>| unescaped_step(step))
}

/// The position in an array that a step names: digits, without a sign and without a leading zero.
pub open spec fn step_index(step: Seq<char>) -> Option<nat> {
    if step.len() > 0 && (step[0] == '+' || (step[0] == '0' && step.len() != 1)) {
        None
    } else {
        bounded_number(step, usize::MAX as nat)
    }
}

impl JsonModel {
    /// What a step leads to: a member of an object, or an item of an array.
    pub open spec fn step(self, step: Seq<char>) -> Option<JsonModel> {
        match self {
            JsonModel::Object(_) => self.get(step),
            JsonModel::Array(items) => match step_index(step) {
                Some(i) if i < items.len() => Some(items[i as int]),
                _ => None,
            },
            _ => None,
        }
    }

    /// What the steps from `from` on lead to.
    pub open spec fn at(self, steps: Seq<Seq<char>>, from: int) -> Option<JsonModel>
        decreases steps.len() - from,
    {
        if from < 0 || from >= steps.len() {
            Some(self)
        } else {
            match self.step(steps[from]) {
                Some(value) => value.at(steps, from + 1),
                None => None,
            }
        }
    }

    /// This value with another one put where a step leads.
    pub open spec fn step_set(self, step: Seq<char>, value: JsonModel) -> JsonModel {
        match self {
            JsonModel::Object(_) => self.with(step, value),
            JsonModel::Array(items) => match step_index(step) {
                Some(i) if i < items.len() => JsonModel::Array(items.update(i as int, value)),
                _ => self,
            },
            _ => self,
        }
    }

    /// This value with another one put where the steps from `from` on lead; as it is where they
    /// lead nowhere.
    pub open spec fn set_at(self, steps: Seq<Seq<char>>, from: int, value: JsonModel) -> JsonModel
        decreases steps.len() - from,
    {
        if from < 0 || from >= steps.len() {
            value
        } else {
            match self.step(steps[from]) {
                Some(inner) => self.step_set(steps[from], inner.set_at(steps, from + 1, value)),
                None => self,
            }
        }
    }
}

/// The members of an object after those of another were put into it, one after the other.
pub open spec fn with_members(
    members: Seq<(Seq<char>, JsonModel)>,
    more: Seq<(Seq<char>, JsonModel)>,
) -> Seq<(Seq<char>, JsonModel)>
    decreases more.len(),
{
    if more.len() == 0 {
        members
    } else {
        with_member(with_members(members, more.drop_last()), more.last().0, more.last().1)
    }
}

/// The steps of a pointer that begins with a slash.
pub fn steps_of(pointer: &str) -> (steps: Vec<String>)
    ensures
        texts(steps@) == pointer_steps(pointer@),
{
    let parts = split_on(&chars_of(pointer), '/');
    let ghost all = split(pointer@, '/');
    let mut steps: Vec<String> = Vec::new();
    let mut i: usize = 1;
    proof {
        split_is_not_empty(pointer@, '/', 0);
    }
    while i < parts.len()
        invariant
            1 <= i <= parts.len(),
            all == char_views(parts@),
            all == split(pointer@, '/'),
            steps.len() == i - 1,
            forall|k: int| 0 <= k < i - 1 ==> (#[trigger] steps@[k])@ == unescaped_step(all[k + 1]),
        decreases parts.len() - i,
    {
        let step = text_of(&replace_all(&replace_all(&parts[i], "~1", '/'), "~0", '~'));
        assert(all[i as int] == parts@[i as int]@);
        steps.push(step);
        i += 1;
    }
    assert(texts(steps@) =~= pointer_steps(pointer@));
    steps
}

proof fn split_is_not_empty(s: Seq<char>, sep: char, from: int)
    requires
        0 <= from <= s.len(),
    ensures
        pieces(s, sep, from).len() >= 1,
{
}

/// The position in an array that a step names.
fn index_of_step(step: &str) -> (index: Option<usize>)
    ensures
        match index {
            Some(i) => step_index(step@) == Some(i as nat),
            None => step_index(step@) is None,
        },
{
    let s = chars_of(step);
    if s.len() > 0 && (s[0] == '+' || (s[0] == '0' && s.len() != 1)) {
        return None;
    }
    match parse_number(step, usize::MAX as u64) {
        Some(n) => Some(n as usize),
        None => None,
    }
}

impl Json {
    /// What a step leads to.
    fn step(&self, step: &str) -> (value: Option<&Json>)
        ensures
            match value {
                Some(value) => self.model().step(step@) == Some(value.model()),
                None => self.model().step(step@) is None,
            },
    {
        match self {
            Json::Object(_) => self.get(step),
            Json::Array(items) => {
                proof {
                    Json::model_of_array(*items);
                }
                match index_of_step(step) {
                    Some(i) => {
                        if i < items.len() {
                            Some(&items[i])
                        } else {
                            None
                        }
                    },
                    None => None,
                }
            },
            _ => None,
        }
    }

    /// What some steps lead to.
    pub fn at(&self, steps: &Vec<String>) -> (value: Option<&Json>)
        ensures
            match value {
                Some(value) => self.model().at(texts(steps@), 0) == Some(value.model()),
                None => self.model().at(texts(steps@), 0) is None,
            },
    {
        let ghost path = texts(steps@);
        let mut here = self;
        let mut i: usize = 0;
        while i < steps.len()
            invariant
                i <= steps.len(),
                path == texts(steps@),
                here.model().at(path, i as int) == self.model().at(path, 0),
            decreases steps.len() - i,
        {
            assert(path[i as int] == steps@[i as int]@);
            match here.step(steps[i].as_str()) {
                Some(value) => here = value,
                None => return None,
            }
            i += 1;
        }
        Some(here)
    }

    /// This value with another one put where a step leads.
    fn step_set(self, step: &str, value: Json) -> (json: Json)
        ensures
            json.model() == self.model().step_set(step@, value.model()),
    {
        match self {
            Json::Object(members) => Json::Object(members).with(step, value),
            Json::Array(items) => {
                let mut items = items;
                let ghost before = models(items@);
                proof {
                    Json::model_of_array(items);
                }
                match index_of_step(step) {
                    Some(i) => {
                        if i < items.len() {
                            items.set(i, value);
                            assert(models(items@) =~= before.update(i as int, value.model()));
                        }
                    },
                    None => {},
                }
                proof {
                    Json::model_of_array(items);
                }
                Json::Array(items)
            },
            other => other,
        }
    }

    /// This value with another one put where some steps lead; as it is where they lead nowhere.
    pub fn set_at(self, steps: &Vec<String>, from: usize, value: Json) -> (json: Json)
        requires
            from <= steps.len(),
        ensures
            json.model() == self.model().set_at(texts(steps@), from as int, value.model()),
        decreases steps.len() - from,
    {
        if from == steps.len() {
            return value;
        }
        assert(texts(steps@)[from as int] == steps@[from as int]@);
        let inner = match self.step(steps[from].as_str()) {
            Some(inner) => inner.copy(),
            None => return self,
        };
        let inner = inner.set_at(steps, from + 1, value);
        self.step_set(steps[from].as_str(), inner)
    }

    /// This object with the members of another put into it; any other value is left as it is.
    pub fn extend(self, more: &Vec<(String, Json)>) -> (object: Json)
        ensures
            object.model() == (match self.model() {
                JsonModel::Object(members) => JsonModel::Object(
                    with_members(members, member_models(more@)),
                ),
                other => other,
            }),
    {
        match &self {
            Json::Object(_) => {},
            _ => return self,
        }
        let ghost members = self.model()->Object_0;
        let ghost all = member_models(more@);
        let mut object = self;
        let mut i: usize = 0;
        assert(all.take(0) =~= Seq::empty());
        while i < more.len()
            invariant
                i <= more.len(),
                all == member_models(more@),
                object.model() == JsonModel::Object(with_members(members, all.take(i as int))),
            decreases more.len() - i,
        {
            assert(all.take(i + 1).drop_last() =~= all.take(i as int));
            object = object.with(more[i].0.as_str(), more[i].1.copy());
            i += 1;
        }
        assert(all.take(i as int) =~= all);
        object
    }
}

/// What has been put where some steps lead is what they lead to.
pub proof fn set_is_read_back(value: JsonModel, steps: Seq<Seq<char>>, from: int, new: JsonModel)
    requires
        0 <= from <= steps.len(),
        value.at(steps, from) is Some,
    ensures
        value.set_at(steps, from, new).at(steps, from) == Some(new),
    decreases steps.len() - from,
{
    if from < steps.len() {
        let step = steps[from];
        let inner = value.step(step)->Some_0;
        set_is_read_back(inner, steps, from + 1, new);
        let put = inner.set_at(steps, from + 1, new);
        match value {
            JsonModel::Object(_) => get_after_with(value, step, put, step),
            _ => {},
        }
        assert(value.step_set(step, put).step(step) == Some(put));
    }
}

/// The first member of a name is the one that is read.
pub proof fn first_member_is_read(members: Seq<(Seq<char>, JsonModel)>, key: Seq<char>, at: int)
    requires
        0 <= at <= members.len(),
        at < members.len() ==> members[at].0 == key,
        forall|i: int| 0 <= i < at ==> (#[trigger] members[i]).0 != key,
    ensures
        JsonModel::Object(members).get(key) == if at < members.len() {
            Some(members[at].1)
        } else {
            None
        },
{
    member_position_is(members, key, 0, at);
}

/// Only an object has members, only a string is a text, only an array has items.
pub proof fn read_as_what_it_is(value: JsonModel, key: Seq<char>)
    ensures
        !(value is Object) ==> value.get(key) is None && value.text_at(key) is None,
        value matches JsonModel::Str(text) ==> value.text() == Some(text),
        !(value is Str) ==> value.text() is None,
        value.get(key) matches Some(JsonModel::Str(text)) ==> value.text_at(key) == Some(text),
        !(value is Array) ==> value.items() == Seq::<JsonModel>::empty(),
        value.is_true_at(key) <==> value.get(key) == Some(JsonModel::Bool(true)),
{
    member_position_is_first(value.members(), key, 0);
}

/// A number that is written in digits is read back; a text of digits is no number.
pub proof fn written_number_is_read(n: nat, text: Seq<char>)
    ensures
        n <= u64::MAX ==> JsonModel::Number(decimal(n)).whole() == Some(n),
        n > u64::MAX ==> JsonModel::Number(decimal(n)).whole() is None,
        JsonModel::Str(text).whole() is None,
{
    number_of_decimal(n);
}

/// Without a member, every other one is what it was.
pub proof fn get_after_without(object: JsonModel, key: Seq<char>, other: Seq<char>)
    ensures
        other != key ==> object.without(key).get(other) == object.get(other),
        object is Object && object.get(key) is Some ==> object.without(key).members().len()
            == object.members().len() - 1,
        object.get(key) is None ==> object.without(key) == object,
{
    let before = object.members();
    let after = object.without(key).members();
    member_position_is_first(before, key, 0);
    member_position_is_first(before, other, 0);
    let at = member_position(before, key, 0);
    let o = member_position(before, other, 0);
    if at < before.len() && other != key {
        assert(object is Object);
        assert(after == before.remove(at));
        if o == before.len() {
            assert forall|i: int| 0 <= i < after.len() implies (#[trigger] after[i]).0 != other by {
                if i < at {
                    assert(before[i].0 != other);
                } else {
                    assert(before[i + 1].0 != other);
                }
            }
            member_position_is(after, other, 0, after.len() as int);
        } else if o < at {
            assert forall|i: int| 0 <= i < o implies (#[trigger] after[i]).0 != other by {
                assert(before[i].0 != other);
            }
            member_position_is(after, other, 0, o);
        } else {
            assert forall|i: int| 0 <= i < o - 1 implies (#[trigger] after[i]).0 != other by {
                if i < at {
                    assert(before[i].0 != other);
                } else {
                    assert(before[i + 1].0 != other);
                }
            }
            member_position_is(after, other, 0, o - 1);
        }
    }
}

/// Of the members that are put into an object, the last one of a name is what is read under it; what
/// none of them is called stays as it was.
pub proof fn put_members_are_read(
    members: Seq<(Seq<char>, JsonModel)>,
    more: Seq<(Seq<char>, JsonModel)>,
    at: int,
    key: Seq<char>,
)
    requires
        -1 <= at < more.len(),
        at >= 0 ==> more[at].0 == key,
        forall|i: int| at < i < more.len() ==> (#[trigger] more[i]).0 != key,
    ensures
        JsonModel::Object(with_members(members, more)).get(key) == if at >= 0 {
            Some(more[at].1)
        } else {
            JsonModel::Object(members).get(key)
        },
    decreases more.len(),
{
    if more.len() > 0 {
        let fewer = more.drop_last();
        let put = JsonModel::Object(with_members(members, fewer));
        get_after_with(put, more.last().0, more.last().1, key);
        if at < fewer.len() {
            assert forall|i: int| at < i < fewer.len() implies (#[trigger] fewer[i]).0 != key by {
                assert(more[i].0 != key);
            }
            assert(more[more.len() - 1].0 != key);
            put_members_are_read(members, fewer, at, key);
        }
    }
}

/// Steps lead from value to value: one into an object leads to its member, one into an array to the
/// item that its digits count, and where one leads nowhere, so do all.
pub proof fn steps_lead_inward(value: JsonModel, first: Seq<char>, rest: Seq<Seq<char>>, n: nat)
    ensures
        value.at(seq![first] + rest, 0) == (match value.step(first) {
            Some(inner) => inner.at(rest, 0),
            None => None,
        }),
        value.at(Seq::empty(), 0) == Some(value),
        value is Object ==> value.step(first) == value.get(first),
        value matches JsonModel::Array(items) ==> (n < items.len() && n <= usize::MAX
            ==> value.step(decimal(n)) == Some(items[n as int])),
        value matches JsonModel::Array(items) ==> (n >= items.len() ==> value.step(decimal(n)) is None),
        !(value is Object) && !(value is Array) ==> value.step(first) is None,
{
    let steps = seq![first] + rest;
    if let Some(inner) = value.step(first) {
        shifted_steps(inner, first, rest, 0);
    }
    assert(steps[0] == first);
    number_of_decimal(n);
    decimal_is_digits(n);
    decimal_has_no_leading_zero(n);
}

proof fn shifted_steps(value: JsonModel, first: Seq<char>, rest: Seq<Seq<char>>, from: int)
    requires
        0 <= from,
    ensures
        value.at(seq![first] + rest, from + 1) == value.at(rest, from),
    decreases rest.len() - from,
{
    let steps = seq![first] + rest;
    if from < rest.len() {
        assert(steps[from + 1] == rest[from]);
        if let Some(inner) = value.step(rest[from]) {
            shifted_steps(inner, first, rest, from + 1);
        }
    }
}

proof fn decimal_has_no_leading_zero(n: nat)
    ensures
        decimal(n)[0] == '0' ==> decimal(n).len() == 1,
        n >= 10 ==> decimal(n)[0] != '0',
    decreases n,
{
    if n >= 10 {
        decimal_has_no_leading_zero(n / 10);
        decimal_is_digits(n / 10);
        assert(decimal(n)[0] == decimal(n / 10)[0]);
        if n / 10 < 10 {
            assert(decimal(n / 10) =~= seq![digit(n / 10)]);
        }
    }
}

/// A pointer is a slash before each of its steps; a step without a tilde is meant as it is written.
pub proof fn pointer_is_read(step: Seq<char>, rest: Seq<char>)
    requires
        !step.contains('/'),
        !step.contains('~'),
    ensures
        pointer_steps("/"@ + step) == seq![step],
        pointer_steps("/"@ + step + "/"@ + rest) == seq![step] + pointer_steps("/"@ + rest),
{
    reveal_strlit("/");
    reveal_strlit("~1");
    reveal_strlit("~0");
    let empty = Seq::<char>::empty();
    assert forall|i: int| 0 <= i < step.len() implies #[trigger] step[i] != '~' by {
        assert(step.contains(step[i]));
    }
    nothing_is_replaced(step, "~1"@, '/');
    nothing_is_replaced(step, "~0"@, '~');
    assert(unescaped_step(step) == step);
    pieces_are_between_separators(empty, '/', step);
    pieces_are_between_separators(step, '/', rest);
    pieces_are_between_separators(empty, '/', rest);
    assert("/"@ + step =~= empty.push('/') + step);
    assert("/"@ + rest =~= empty.push('/') + rest);
    let long = step.push('/') + rest;
    pieces_are_between_separators(empty, '/', long);
    assert("/"@ + step + "/"@ + rest =~= empty.push('/') + long);
    assert((seq![empty] + split(step, '/')).skip(1) =~= seq![step]);
    assert((seq![empty] + split(rest, '/')).skip(1) =~= split(rest, '/'));
    assert((seq![empty] + split(long, '/')).skip(1) =~= split(long, '/'));
    assert(pointer_steps("/"@ + step) =~= seq![step]);
    assert(pointer_steps("/"@ + step + "/"@ + rest) =~= seq![step] + pointer_steps("/"@ + rest));
}

/// A number is read from its digits; the steps of a pointer are read one by one.
pub proof fn read_as_written(
    value: Json,
    n: u64,
    whole: Option<u64>,
    pointer: &str,
    step: Seq<char>,
    steps: Vec<String>,
)
    requires
        call_ensures(Json::as_u64, (&value,), whole),
        call_ensures(steps_of, (pointer,), steps),
        pointer@ == "/"@ + step,
        !step.contains('/'),
        !step.contains('~'),
    ensures
        value.model() == JsonModel::Number(decimal(n as nat)) ==> whole == Some(n),
        value.model() is Str ==> whole is None,
        steps@.len() == 1 && steps@[0]@ == step,
{
    written_number_is_read(n as nat, Seq::empty());
    pointer_is_read(step, Seq::empty());
    assert(texts(steps@).len() == steps@.len());
    assert(texts(steps@)[0] == steps@[0]@);
}

} // verus!
