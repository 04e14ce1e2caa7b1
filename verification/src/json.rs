//! A JSON document as the workflow logic reads and edits it.
//!
//! Objects keep their members in the order the JSON map walks them;
//! numbers keep the text they were written with, since the logic only
//! carries them along.

use vstd::prelude::*;
use crate::text::str_equal;

verus! {

/// A JSON value.
pub enum Json {
    Null,
    Bool(bool),
    /// A number, as its JSON text.
    Number(String),
    Str(String),
    Array(Vec<Json>),
    /// An object: its members in order.
    Object(Vec<(String, Json)>),
}

/// The mathematical value of a JSON document: strings as character
/// sequences.
pub enum JsonValue {
    Null,
    Bool(bool),
    Number(Seq<char>),
    Str(Seq<char>),
    Array(Seq<JsonValue>),
    Object(Seq<(Seq<char>, JsonValue)>),
}

impl View for Json {
    type V = JsonValue;

    open spec fn view(&self) -> JsonValue
        decreases self,
    {
        match self {
            Json::Null => JsonValue::Null,
            Json::Bool(b) => JsonValue::Bool(*b),
            Json::Number(n) => JsonValue::Number(n@),
            Json::Str(s) => JsonValue::Str(s@),
            Json::Array(items) => JsonValue::Array(
                Seq::new(
                    items@.len(),
                    |i: int|
                        if 0 <= i < items@.len() {
                            items@[i].view()
                        } else {
                            JsonValue::Null
                        },
                ),
            ),
            Json::Object(members) => JsonValue::Object(members_view(members@)),
        }
    }
}

/// The members of an object, each name and value by its view.
pub open spec fn members_view(members: Seq<(String, Json)>) -> Seq<(Seq<char>, JsonValue)>
    decreases members,
{
    Seq::new(
        members.len(),
        |i: int|
            if 0 <= i < members.len() {
                (members[i].0@, members[i].1.view())
            } else {
                (Seq::empty(), JsonValue::Null)
            },
    )
}

/// The value of the first member named `key`, if any.
pub open spec fn lookup(members: Seq<(Seq<char>, JsonValue)>, key: Seq<char>) -> Option<JsonValue>
    decreases members.len(),
{
    if members.len() == 0 {
        None
    } else if members[0].0 == key {
        Some(members[0].1)
    } else {
        lookup(members.drop_first(), key)
    }
}

/// Index of the first member named `key`, or the number of members when
/// there is none.
pub open spec fn key_index(members: Seq<(Seq<char>, JsonValue)>, key: Seq<char>) -> int
    decreases members.len(),
{
    if members.len() == 0 {
        0
    } else if members[0].0 == key {
        0
    } else {
        1 + key_index(members.drop_first(), key)
    }
}

/// The members after setting `key` to `value`: the first member of that
/// name gets the new value, or a new member is added at the end.
pub open spec fn insert_member(members: Seq<(Seq<char>, JsonValue)>, key: Seq<char>, value: JsonValue) -> Seq<
    (Seq<char>, JsonValue),
> {
    let i = key_index(members, key);
    if i < members.len() {
        members.update(i, (key, value))
    } else {
        members.push((key, value))
    }
}

impl JsonValue {
    /// The member `key` of an object; `None` for other values.
    pub open spec fn get(self, key: Seq<char>) -> Option<JsonValue> {
        match self {
            JsonValue::Object(members) => lookup(members, key),
            _ => None,
        }
    }

    /// The text of a string value; `None` for other values.
    pub open spec fn as_str(self) -> Option<Seq<char>> {
        match self {
            JsonValue::Str(s) => Some(s),
            _ => None,
        }
    }
}

/// Index of the first member of `members` named `key`, or the number of
/// members when there is none.
pub fn member_index(members: &Vec<(String, Json)>, key: &str) -> (r: usize)
    ensures
        r as int == key_index(members_view(members@), key@),
{
    let ghost m = members_view(members@);
    proof {
        lemma_key_index(m, key@);
    }
    let mut i: usize = 0;
    while i < members.len()
        invariant
            0 <= i <= members@.len(),
            m == members_view(members@),
            m.len() == members@.len(),
            forall|j: int| 0 <= j < i ==> m[j].0 != key@,
            0 <= key_index(m, key@) <= m.len(),
            key_index(m, key@) < m.len() ==> m[key_index(m, key@)].0 == key@,
            forall|j: int| 0 <= j < key_index(m, key@) ==> m[j].0 != key@,
        decreases members@.len() - i,
    {
        assert(m[i as int] == (members@[i as int].0@, members@[i as int].1@));
        if str_equal(members[i].0.as_str(), key) {
            return i;
        }
        i = i + 1;
    }
    i
}

proof fn lemma_members_view_update(members: Seq<(String, Json)>, i: int, e: (String, Json))
    requires
        0 <= i < members.len(),
    ensures
        members_view(members.update(i, e)) == members_view(members).update(i, (e.0@, e.1@)),
{
    assert(members_view(members.update(i, e)) =~= members_view(members).update(i, (e.0@, e.1@)));
}

proof fn lemma_members_view_push(members: Seq<(String, Json)>, e: (String, Json))
    ensures
        members_view(members.push(e)) == members_view(members).push((e.0@, e.1@)),
{
    assert(members_view(members.push(e)) =~= members_view(members).push((e.0@, e.1@)));
}

pub proof fn lemma_key_index(members: Seq<(Seq<char>, JsonValue)>, key: Seq<char>)
    ensures
        0 <= key_index(members, key) <= members.len(),
        key_index(members, key) < members.len() ==> members[key_index(members, key)].0 == key
            && lookup(members, key) == Some(members[key_index(members, key)].1),
        key_index(members, key) == members.len() <==> lookup(members, key) is None,
        forall|j: int| 0 <= j < key_index(members, key) ==> members[j].0 != key,
    decreases members.len(),
{
    if members.len() > 0 && members[0].0 != key {
        lemma_key_index(members.drop_first(), key);
        assert forall|j: int| 0 <= j < key_index(members, key) implies members[j].0 != key by {
            if j > 0 {
                assert(members[j] == members.drop_first()[j - 1]);
            }
        }
    }
}

impl Json {
    /// The member `key` of an object; `None` for other values.
    pub fn get(&self, key: &str) -> (r: Option<&Json>)
        ensures
            match r {
                Some(v) => self@.get(key@) == Some(v@),
                None => self@.get(key@) is None,
            },
    {
        match self {
            Json::Object(members) => {
                let ghost m = members_view(members@);
                assert(self@ == JsonValue::Object(m));
                proof {
                    lemma_key_index(m, key@);
                }
                let i = member_index(members, key);
                if i < members.len() {
                    Some(&members[i].1)
                } else {
                    None
                }
            },
            _ => None,
        }
    }

    /// The member `key` of an object, taken out of it; `None` for other
    /// values.
    pub fn into_member(self, key: &str) -> (r: Option<Json>)
        ensures
            match r {
                Some(v) => self@.get(key@) == Some(v@),
                None => self@.get(key@) is None,
            },
    {
        let ghost whole = self@;
        match self {
            Json::Object(mut members) => {
                let ghost m = members_view(members@);
                assert(whole == JsonValue::Object(m));
                proof {
                    lemma_key_index(m, key@);
                }
                let i = member_index(&members, key);
                if i < members.len() {
                    assert(m[i as int] == (members@[i as int].0@, members@[i as int].1@));
                    let (_name, value) = members.remove(i);
                    Some(value)
                } else {
                    None
                }
            },
            _ => None,
        }
    }

    /// Sets the member `key` of an object to `value` (replacing the first
    /// member of that name, or adding one at the end); other values are
    /// left as they are.
    pub fn set_member(&mut self, key: &str, value: Json)
        ensures
            match old(self)@ {
                JsonValue::Object(m) => final(self)@ == JsonValue::Object(insert_member(m, key@, value@)),
                _ => final(self)@ == old(self)@,
            },
    {
        let mut taken = Json::Null;
        std::mem::swap(&mut taken, self);
        match taken {
            Json::Object(mut members) => {
                let ghost m = members_view(members@);
                proof {
                    lemma_key_index(m, key@);
                }
                let i = member_index(&members, key);
                if i < members.len() {
                    let ghost old_members = members@;
                    let (name, _previous) = members.remove(i);
                    let ghost name_view = name@;
                    members.insert(i, (name, value));
                    proof {
                        assert(members@ =~= old_members.update(i as int, members@[i as int]));
                        lemma_members_view_update(old_members, i as int, members@[i as int]);
                    }
                } else {
                    let ghost old_members = members@;
                    members.push((key.to_owned(), value));
                    proof {
                        lemma_members_view_push(old_members, members@.last());
                    }
                }
                *self = Json::Object(members);
            },
            other => {
                *self = other;
            },
        }
    }

    /// The text of a string value; `None` for other values.
    pub fn as_str(&self) -> (r: Option<&String>)
        ensures
            match r {
                Some(s) => self@.as_str() == Some(s@),
                None => self@.as_str() is None,
            },
    {
        match self {
            Json::Str(s) => Some(s),
            _ => None,
        }
    }
}

/// Reading a member just set gives the value it was set to.
pub proof fn lemma_lookup_insert_same(members: Seq<(Seq<char>, JsonValue)>, key: Seq<char>, value: JsonValue)
    ensures
        lookup(insert_member(members, key, value), key) == Some(value),
{
    lemma_key_index(members, key);
    let i = key_index(members, key);
    let n = insert_member(members, key, value);
    lemma_key_index(n, key);
    if i < members.len() {
        assert(n[i] == (key, value));
        if key_index(n, key) < i {
            assert(n[key_index(n, key)] == members[key_index(n, key)]);
        }
    } else {
        assert(n[members.len() as int] == (key, value));
        if key_index(n, key) < members.len() {
            assert(n[key_index(n, key)] == members[key_index(n, key)]);
        }
    }
}

/// Setting a member leaves the members of other names as they were.
pub proof fn lemma_lookup_insert_other(
    members: Seq<(Seq<char>, JsonValue)>,
    key: Seq<char>,
    value: JsonValue,
    other: Seq<char>,
)
    requires
        other != key,
    ensures
        lookup(insert_member(members, key, value), other) == lookup(members, other),
{
    lemma_key_index(members, key);
    lemma_key_index(members, other);
    let n = insert_member(members, key, value);
    lemma_key_index(n, other);
    let i = key_index(members, key);
    let j = key_index(members, other);
    let jn = key_index(n, other);
    assert forall|t: int| 0 <= t < members.len() && t != i implies n[t] == members[t] by {}
    if jn < j {
        assert(n[jn].0 == other);
        if jn < members.len() {
            assert(n[jn] == members[jn]);
        }
    }
    if j < jn && j < members.len() {
        assert(n[j] == members[j]);
    }
    if j < members.len() {
        assert(n[j] == members[j]);
    }
}

#[verifier::external_type_specification]
#[verifier::external_body]
pub struct ExJsonValue(serde_json::Value);

/// No two members share a name.
pub open spec fn names_distinct(members: Seq<(Seq<char>, JsonValue)>) -> bool {
    forall|i: int, j: int| 0 <= i < j < members.len() ==> #[trigger] members[i].0 != #[trigger] members[j].0
}

/// The members of every object in the document have distinct names, as in
/// a JSON map.
pub open spec fn json_wf(v: JsonValue) -> bool
    decreases v,
{
    match v {
        JsonValue::Array(items) => forall|i: int| 0 <= i < items.len() ==> json_wf(#[trigger] items[i]),
        JsonValue::Object(members) => names_distinct(members) && forall|i: int|
            0 <= i < members.len() ==> json_wf(#[trigger] members[i].1),
        _ => true,
    }
}

/// What `serde_json::from_str` parses the text `text` into, by value, or
/// `None` when the text is not a JSON document.
pub uninterp spec fn parsed_json(text: Seq<char>) -> Option<JsonValue>;

/// The message of the error `serde_json::from_str` reports for the text
/// `text` that is not a JSON document.
pub uninterp spec fn parse_error_text(text: Seq<char>) -> Seq<char>;

/// Turns a serde_json document into the library's JSON value, variant by
/// variant: numbers keep their text, objects their members in the order
/// the map walks them.
#[verifier::external_body]
fn json_from_value(v: serde_json::Value) -> Json {
    match v {
        serde_json::Value::Null => Json::Null,
        serde_json::Value::Bool(b) => Json::Bool(b),
        serde_json::Value::Number(n) => Json::Number(n.to_string()),
        serde_json::Value::String(s) => Json::Str(s),
        serde_json::Value::Array(items) => Json::Array(items.into_iter().map(json_from_value).collect()),
        serde_json::Value::Object(map) => Json::Object(
            map.into_iter().map(|(k, x)| (k, json_from_value(x))).collect(),
        ),
    }
}

/// Parses the JSON document `text`.
///
/// Calls `serde_json::from_str` into `serde_json::Value` and converts the
/// value. Trusted: the result is the named parse of `text`, its error the
/// named message of the parser's error for `text`; the members of each object have distinct names, since
/// serde_json keeps them in a map.
#[verifier::external_body]
pub fn parse_json(text: &str) -> (r: Result<Json, String>)
    ensures
        match r {
            Ok(j) => parsed_json(text@) == Some(j@),
            Err(m) => parsed_json(text@) is None && m@ == parse_error_text(text@),
        },
        r matches Ok(j) ==> json_wf(j@),
{
    match serde_json::from_str::<serde_json::Value>(text) {
        Ok(v) => Ok(json_from_value(v)),
        Err(e) => Err(e.to_string()),
    }
}

/// Setting a member keeps the member names distinct.
pub proof fn lemma_insert_keeps_names_distinct(
    members: Seq<(Seq<char>, JsonValue)>,
    key: Seq<char>,
    value: JsonValue,
)
    requires
        names_distinct(members),
    ensures
        names_distinct(insert_member(members, key, value)),
{
    lemma_key_index(members, key);
    let n = insert_member(members, key, value);
    let k = key_index(members, key);
    assert forall|i: int, j: int| 0 <= i < j < n.len() implies #[trigger] n[i].0 != #[trigger] n[j].0 by {
        if k < members.len() {
            assert(n[i].0 == members[i].0 && n[j].0 == members[j].0);
        } else if j == members.len() {
            assert(n[i] == members[i]);
        } else {
            assert(n[i] == members[i] && n[j] == members[j]);
        }
    }
}

} // verus!
