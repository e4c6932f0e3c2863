use crate::text::{decimal, i64_to_decimal};
use vstd::prelude::*;

verus! {

/// A JSON number as the library carries it: the text it is written with, and
/// its value where that value is a 64-bit signed integer.
#[derive(Debug, PartialEq, Eq)]
pub struct JsonNumber {
    pub integer: Option<i64>,
    pub text: String,
}

/// One entry of a JSON object.
#[derive(Debug, PartialEq, Eq)]
pub struct Member {
    pub key: String,
    pub value: Json,
}

/// A structured document: a tree of objects, arrays and scalars.
///
/// An object is held as the list of its entries. Where a key occurs more than
/// once, the last entry with that key is the one the object maps it to.
#[derive(Debug, PartialEq, Eq)]
pub enum Json {
    Null,
    Bool(bool),
    Number(JsonNumber),
    Text(String),
    Array(Vec<Json>),
    Object(Vec<Member>),
}

/// The mathematical value of a [`Json`] tree.
pub enum JsonValue {
    Null,
    Bool(bool),
    Number { integer: Option<i64>, text: Seq<char> },
    Text(Seq<char>),
    Array(Seq<JsonValue>),
    Object(Seq<(Seq<char>, JsonValue)>),
}

/// The map that a list of object entries stands for: each entry overwrites
/// what earlier entries said of its key.
pub open spec fn entries_map(entries: Seq<(Seq<char>, JsonValue)>) -> Map<Seq<char>, JsonValue>
    decreases entries.len(),
{
    if entries.len() == 0 {
        Map::empty()
    } else {
        entries_map(entries.drop_last()).insert(entries.last().0, entries.last().1)
    }
}

impl JsonValue {
    /// The value under `key` where `self` is an object that has the key.
    pub open spec fn get(self, key: Seq<char>) -> Option<JsonValue> {
        match self {
            JsonValue::Object(entries) => if entries_map(entries).contains_key(key) {
                Some(entries_map(entries)[key])
            } else {
                None
            },
            _ => None,
        }
    }

    /// The value under `key`, or `Null` where there is none.
    pub open spec fn member(self, key: Seq<char>) -> JsonValue {
        match self.get(key) {
            Some(v) => v,
            None => JsonValue::Null,
        }
    }

    pub open spec fn as_text(self) -> Option<Seq<char>> {
        match self {
            JsonValue::Text(s) => Some(s),
            _ => None,
        }
    }

    pub open spec fn as_int(self) -> Option<i64> {
        match self {
            JsonValue::Number { integer, text } => integer,
            _ => None,
        }
    }

    pub open spec fn as_array(self) -> Option<Seq<JsonValue>> {
        match self {
            JsonValue::Array(items) => Some(items),
            _ => None,
        }
    }

    pub open spec fn as_object(self) -> Option<Seq<(Seq<char>, JsonValue)>> {
        match self {
            JsonValue::Object(entries) => Some(entries),
            _ => None,
        }
    }
}

impl View for Member {
    type V = (Seq<char>, JsonValue);

    open spec fn view(&self) -> (Seq<char>, JsonValue) {
        (self.key@, self.value@)
    }
}

/// The value of a tree, by recursion on its shape.
pub open spec fn value_of(doc: Json) -> JsonValue
    decreases doc,
{
    match doc {
        Json::Null => JsonValue::Null,
        Json::Bool(b) => JsonValue::Bool(b),
        Json::Number(n) => JsonValue::Number { integer: n.integer, text: n.text@ },
        Json::Text(s) => JsonValue::Text(s@),
        Json::Array(items) => JsonValue::Array(
            Seq::new(
                items.len() as nat,
                |i: int|
                    if 0 <= i < items.len() {
                        value_of(items[i])
                    } else {
                        JsonValue::Null
                    },
            ),
        ),
        Json::Object(members) => JsonValue::Object(
            Seq::new(
                members.len() as nat,
                |i: int|
                    if 0 <= i < members.len() {
                        (members[i].key@, value_of(members[i].value))
                    } else {
                        (Seq::empty(), JsonValue::Null)
                    },
            ),
        ),
    }
}

impl View for Json {
    type V = JsonValue;

    open spec fn view(&self) -> JsonValue {
        value_of(*self)
    }
}

/// The values of a list of documents, in order.
pub open spec fn values_of(items: Seq<Json>) -> Seq<JsonValue> {
    Seq::new(items.len(), |i: int| items[i]@)
}

/// The entries of a list of object members, in order.
pub open spec fn entries_of(members: Seq<Member>) -> Seq<(Seq<char>, JsonValue)> {
    Seq::new(members.len(), |i: int| members[i]@)
}

/// An array's value is the list of its items' values.
pub proof fn lemma_array_view(items: Vec<Json>)
    ensures
        Json::Array(items)@ == JsonValue::Array(values_of(items@)),
{
    assert(Json::Array(items)@->Array_0 =~= values_of(items@));
}

/// An object's value is the list of its members' entries.
pub proof fn lemma_object_view(members: Vec<Member>)
    ensures
        Json::Object(members)@ == JsonValue::Object(entries_of(members@)),
{
    assert(Json::Object(members)@->Object_0 =~= entries_of(members@));
}

/// A key that no entry from position `from` on carries is mapped as the
/// entries before `from` map it.
pub proof fn lemma_entries_map_prefix(
    entries: Seq<(Seq<char>, JsonValue)>,
    key: Seq<char>,
    from: int,
)
    requires
        0 <= from <= entries.len(),
        forall|j: int| from <= j < entries.len() ==> entries[j].0 != key,
    ensures
        entries_map(entries).contains_key(key) == entries_map(
            entries.subrange(0, from),
        ).contains_key(key),
        entries_map(entries).contains_key(key) ==> entries_map(entries)[key] == entries_map(
            entries.subrange(0, from),
        )[key],
    decreases entries.len() - from,
{
    if from == entries.len() {
        assert(entries.subrange(0, from) =~= entries);
    } else {
        let shorter = entries.drop_last();
        lemma_entries_map_prefix(shorter, key, from);
        assert(shorter.subrange(0, from) =~= entries.subrange(0, from));
    }
}

impl Json {
    /// The string `text` as a document.
    pub fn text(text: &str) -> (doc: Json)
        ensures
            doc@ == JsonValue::Text(text@),
    {
        Json::Text(String::from_str(text))
    }

    /// The integer `value` as a document, written in decimal.
    pub fn integer(value: i64) -> (doc: Json)
        ensures
            doc@ == (JsonValue::Number { integer: Some(value), text: decimal(value as int) }),
    {
        Json::Number(JsonNumber { integer: Some(value), text: i64_to_decimal(value) })
    }

    /// The value under `key` where `self` is an object that has the key.
    pub fn get(&self, key: &str) -> (found: Option<&Json>)
        ensures
            match found {
                Some(v) => self@.get(key@) == Some(v@),
                None => self@.get(key@) is None,
            },
    {
        match self {
            Json::Object(members) => {
                proof {
                    lemma_object_view(*members);
                }
                let ghost entries = entries_of(members@);
                let mut i: usize = members.len();
                while i > 0
                    invariant
                        i <= members.len(),
                        entries == entries_of(members@),
                        self@ == JsonValue::Object(entries),
                        forall|j: int| i <= j < members.len() ==> entries[j].0 != key@,
                    decreases i,
                {
                    i = i - 1;
                    if *members[i].key.as_str() == *key {
                        proof {
                            lemma_entries_map_prefix(entries, key@, i + 1);
                            let upto = entries.subrange(0, i + 1);
                            assert(upto.last() == entries[i as int]);
                            assert(entries[i as int] == members@[i as int]@);
                            assert(entries_map(upto) == entries_map(upto.drop_last()).insert(
                                key@,
                                members@[i as int].value@,
                            ));
                        }
                        return Some(&members[i].value);
                    }
                }
                proof {
                    lemma_entries_map_prefix(entries, key@, 0);
                    assert(entries.subrange(0, 0) =~= Seq::empty());
                }
                None
            },
            _ => None,
        }
    }

    /// The text where `self` is a string.
    pub fn as_str(&self) -> (text: Option<&str>)
        ensures
            match text {
                Some(s) => self@.as_text() == Some(s@),
                None => self@.as_text() is None,
            },
    {
        match self {
            Json::Text(s) => Some(s.as_str()),
            _ => None,
        }
    }

    /// The value where `self` is a number that is a 64-bit signed integer.
    pub fn as_i64(&self) -> (value: Option<i64>)
        ensures
            value == self@.as_int(),
    {
        match self {
            Json::Number(n) => n.integer,
            _ => None,
        }
    }

    /// The items where `self` is an array.
    pub fn as_array(&self) -> (items: Option<&Vec<Json>>)
        ensures
            match items {
                Some(v) => self@.as_array() == Some(values_of(v@)),
                None => self@.as_array() is None,
            },
    {
        match self {
            Json::Array(items) => {
                proof {
                    lemma_array_view(*items);
                }
                Some(items)
            },
            _ => None,
        }
    }

    /// A copy of the whole tree.
    pub fn deep_copy(&self) -> (copy: Json)
        ensures
            copy@ == self@,
        decreases self,
    {
        match self {
            Json::Null => Json::Null,
            Json::Bool(b) => Json::Bool(*b),
            Json::Number(n) => Json::Number(
                JsonNumber { integer: n.integer, text: n.text.clone() },
            ),
            Json::Text(s) => Json::Text(s.clone()),
            Json::Array(items) => {
                let mut copies: Vec<Json> = Vec::new();
                let mut i: usize = 0;
                while i < items.len()
                    invariant
                        i <= items.len(),
                        copies.len() == i,
                        *self == Json::Array(*items),
                        forall|j: int| 0 <= j < i ==> copies[j]@ == items[j]@,
                    decreases items.len() - i,
                {
                    assert(decreases_to!(*self => self->Array_0[i as int]));
                    copies.push(items[i].deep_copy());
                    i = i + 1;
                }
                proof {
                    lemma_array_view(*items);
                    lemma_array_view(copies);
                    assert(values_of(copies@) =~= values_of(items@));
                }
                Json::Array(copies)
            },
            Json::Object(members) => {
                let mut copies: Vec<Member> = Vec::new();
                let mut i: usize = 0;
                while i < members.len()
                    invariant
                        i <= members.len(),
                        copies.len() == i,
                        *self == Json::Object(*members),
                        forall|j: int| 0 <= j < i ==> copies[j]@ == members[j]@,
                    decreases members.len() - i,
                {
                    let member = &members[i];
                    assert(decreases_to!(*self => self->Object_0[i as int].value));
                    copies.push(Member { key: member.key.clone(), value: member.value.deep_copy() });
                    i = i + 1;
                }
                proof {
                    lemma_object_view(*members);
                    lemma_object_view(copies);
                    assert(entries_of(copies@) =~= entries_of(members@));
                }
                Json::Object(copies)
            },
        }
    }

    /// The members where `self` is an object.
    pub fn as_object(&self) -> (members: Option<&Vec<Member>>)
        ensures
            match members {
                Some(v) => self@.as_object() == Some(entries_of(v@)),
                None => self@.as_object() is None,
            },
    {
        match self {
            Json::Object(members) => {
                proof {
                    lemma_object_view(*members);
                }
                Some(members)
            },
            _ => None,
        }
    }
}

} // verus!
