//! JSON documents as plain values, read and written by `serde_json`.

use crate::binary64::Binary64;
use crate::text::same_text;
use vstd::prelude::*;

verus! {

/// A JSON number: its reading as a signed 64-bit integer, where it has one, and as a
/// double-precision number.
#[derive(Clone, Copy, Debug, PartialEq, Eq)]
pub struct JsonNumber {
    pub integer: Option<i64>,
    pub double: Option<Binary64>,
}

/// A JSON document. The members of an object stand in the order in which the object is walked.
#[derive(Debug, PartialEq, Eq)]
pub enum Json {
    Null,
    Bool(bool),
    Number(JsonNumber),
    Text(String),
    Array(Vec<Json>),
    Object(Vec<(String, Json)>),
}

/// The value of the first member with the given key.
pub open spec fn lookup(members: Seq<(String, Json)>, key: Seq<char>) -> Option<Json>
    decreases members.len(),
{
    if members.len() == 0 {
        None
    } else if members[0].0@ == key {
        Some(members[0].1)
    } else {
        lookup(members.drop_first(), key)
    }
}

impl Json {
    /// The member of an object with the given key; nothing for any other document.
    pub open spec fn member(self, key: Seq<char>) -> Option<Json> {
        match self {
            Json::Object(members) => lookup(members@, key),
            _ => None,
        }
    }

    /// The characters of a string document.
    pub open spec fn text(self) -> Option<Seq<char>> {
        match self {
            Json::Text(text) => Some(text@),
            _ => None,
        }
    }

    /// The integer reading of a number document.
    pub open spec fn integer(self) -> Option<i64> {
        match self {
            Json::Number(number) => number.integer,
            _ => None,
        }
    }

    /// The double-precision reading of a number document.
    pub open spec fn double(self) -> Option<Binary64> {
        match self {
            Json::Number(number) => number.double,
            _ => None,
        }
    }

    /// Every number in the document has an integer reading.
    pub open spec fn integral(self) -> bool
        decreases self,
    {
        match self {
            Json::Number(number) => number.integer is Some,
            Json::Array(items) => forall|i: int|
                0 <= i < items@.len() ==> (#[trigger] items@[i]).integral(),
            Json::Object(members) => forall|i: int|
                0 <= i < members@.len() ==> (#[trigger] members@[i]).1.integral(),
            _ => true,
        }
    }

    /// Whether every number in the document has an integer reading.
    pub fn is_integral(&self) -> (integral: bool)
        ensures
            integral == self.integral(),
        decreases *self,
    {
        match self {
            Json::Number(number) => number.integer.is_some(),
            Json::Array(items) => {
                let mut i: usize = 0;
                while i < items.len()
                    invariant
                        i <= items@.len(),
                        *self == Json::Array(*items),
                        forall|j: int| 0 <= j < i ==> (#[trigger] items@[j]).integral(),
                    decreases items.len() - i,
                {
                    assert(decreases_to!(*self => self->Array_0));
                    assert(decreases_to!(*items => items@));
                    assert(decreases_to!(items@ => items@[i as int]));
                    if !items[i].is_integral() {
                        return false;
                    }
                    i = i + 1;
                }
                true
            },
            Json::Object(members) => {
                let mut i: usize = 0;
                while i < members.len()
                    invariant
                        i <= members@.len(),
                        *self == Json::Object(*members),
                        forall|j: int| 0 <= j < i ==> (#[trigger] members@[j]).1.integral(),
                    decreases members.len() - i,
                {
                    assert(decreases_to!(*self => self->Object_0));
                    assert(decreases_to!(*members => members@));
                    assert(decreases_to!(members@ => members@[i as int]));
                    assert(decreases_to!(members@[i as int] => members@[i as int].1));
                    if !members[i].1.is_integral() {
                        return false;
                    }
                    i = i + 1;
                }
                true
            },
            _ => true,
        }
    }

    pub fn get(&self, key: &str) -> (found: Option<&Json>)
        ensures
            match found {
                Some(value) => self.member(key@) == Some(*value),
                None => self.member(key@) is None,
            },
    {
        match self {
            Json::Object(members) => {
                let mut i: usize = 0;
                assert(members@.skip(0) =~= members@);
                while i < members.len()
                    invariant
                        i <= members@.len(),
                        self.member(key@) == lookup(members@.skip(i as int), key@),
                    decreases members.len() - i,
                {
                    assert(members@.skip(i as int).drop_first() =~= members@.skip(i + 1));
                    if same_text(members[i].0.as_str(), key) {
                        return Some(&members[i].1);
                    }
                    i = i + 1;
                }
                None
            },
            _ => None,
        }
    }

    pub fn as_text(&self) -> (found: Option<&str>)
        ensures
            match found {
                Some(text) => self.text() == Some(text@),
                None => self.text() is None,
            },
    {
        match self {
            Json::Text(text) => Some(text.as_str()),
            _ => None,
        }
    }

    pub fn as_integer(&self) -> (found: Option<i64>)
        ensures
            found == self.integer(),
    {
        match self {
            Json::Number(number) => number.integer,
            _ => None,
        }
    }

    pub fn as_double(&self) -> (found: Option<Binary64>)
        ensures
            found == self.double(),
    {
        match self {
            Json::Number(number) => number.double,
            _ => None,
        }
    }

    pub fn is_object(&self) -> (object: bool)
        ensures
            object == (*self is Object),
    {
        match self {
            Json::Object(_) => true,
            _ => false,
        }
    }
}

/// A document of `serde_json`.
#[verifier::external_type_specification]
#[verifier::external_body]
pub struct ExValue(serde_json::Value);

/// What a document of `serde_json` holds.
pub uninterp spec fn value_tree(value: serde_json::Value) -> Json;

/// What the JSON text of a document says, where the text is JSON.
pub uninterp spec fn parsed_json(text: Seq<char>) -> Option<Json>;

/// The `serde_json` document with the same content.
pub uninterp spec fn tree_value(tree: Json) -> serde_json::Value;

/// The compact JSON text of a document.
pub uninterp spec fn value_text(value: serde_json::Value) -> Seq<char>;

/// `serde_json::from_str`, reading a whole text as one document: whether it is JSON, and what it
/// then holds, depends on the text alone.
#[verifier::external_body]
fn read_value(text: &str) -> (value: Option<serde_json::Value>)
    ensures
        match value {
            Some(value) => parsed_json(text@) == Some(value_tree(value)),
            None => parsed_json(text@) is None,
        },
{
    serde_json::from_str::<serde_json::Value>(text).ok()
}

/// Takes a `serde_json::Value` apart into plain values: strings, lists and members one for one,
/// members in the order of the map's `into_iter`, a number by `Number::as_i64` and
/// `Number::as_f64`.
#[verifier::external_body]
fn from_value(value: serde_json::Value) -> (tree: Json)
    ensures
        tree == value_tree(value),
{
    match value {
        serde_json::Value::Null => Json::Null,
        serde_json::Value::Bool(flag) => Json::Bool(flag),
        serde_json::Value::Number(number) => Json::Number(JsonNumber {
            integer: number.as_i64(),
            double: number.as_f64().map(|double| Binary64 { bits: double.to_bits() }),
        }),
        serde_json::Value::String(text) => Json::Text(text),
        serde_json::Value::Array(items) => Json::Array(items.into_iter().map(from_value).collect()),
        serde_json::Value::Object(members) => {
            Json::Object(members.into_iter().map(|(key, value)| (key, from_value(value))).collect())
        },
    }
}

/// Builds the `serde_json::Value` with the same content, one for one; of members with the same
/// key its map keeps the last. A number is handed over by its integer reading.
#[verifier::external_body]
fn to_value(tree: &Json) -> (value: serde_json::Value)
    requires
        tree.integral(),
    ensures
        value == tree_value(*tree),
{
    match tree {
        Json::Null => serde_json::Value::Null,
        Json::Bool(flag) => serde_json::Value::Bool(*flag),
        Json::Number(number) => serde_json::Value::from(number.integer),
        Json::Text(text) => serde_json::Value::String(text.clone()),
        Json::Array(items) => serde_json::Value::Array(items.iter().map(to_value).collect()),
        Json::Object(members) => serde_json::Value::Object(
            members.iter().map(|member| (member.0.clone(), to_value(&member.1))).collect(),
        ),
    }
}

/// The `Display` text of a `serde_json::Value`: compact JSON. Control characters inside strings
/// are escaped and nothing is put between the parts, so the text has no line feed.
#[verifier::external_body]
fn display_value(value: &serde_json::Value) -> (text: String)
    ensures
        text@ == value_text(*value),
        !text@.contains('\n'),
{
    value.to_string()
}

/// Reads a text as one JSON document.
pub fn parse_json(text: &str) -> (tree: Option<Json>)
    ensures
        tree == parsed_json(text@),
{
    match read_value(text) {
        Some(value) => Some(from_value(value)),
        None => None,
    }
}

/// Writes a document as compact JSON on one line.
pub fn render_json(tree: &Json) -> (text: String)
    requires
        tree.integral(),
    ensures
        text@ == value_text(tree_value(*tree)),
        !text@.contains('\n'),
{
    display_value(&to_value(tree))
}

/// A member is the first one with its key; only objects have members.
pub proof fn law_a_member_is_the_first_with_its_key(value: Json, key: Seq<char>)
    ensures
        match value {
            Json::Object(members) => match value.member(key) {
                Some(found) => exists|i: int|
                    0 <= i < members@.len() && (#[trigger] members@[i]).0@ == key && members@[i].1
                        == found && forall|j: int| 0 <= j < i ==> (#[trigger] members@[j]).0@ != key,
                None => forall|i: int|
                    0 <= i < members@.len() ==> (#[trigger] members@[i]).0@ != key,
            },
            _ => value.member(key) is None,
        },
{
    if let Json::Object(members) = value {
        lemma_lookup(members@, key);
    }
}

proof fn lemma_lookup(members: Seq<(String, Json)>, key: Seq<char>)
    ensures
        match lookup(members, key) {
            Some(found) => exists|i: int|
                0 <= i < members.len() && (#[trigger] members[i]).0@ == key && members[i].1 == found
                    && forall|j: int| 0 <= j < i ==> (#[trigger] members[j]).0@ != key,
            None => forall|i: int| 0 <= i < members.len() ==> (#[trigger] members[i]).0@ != key,
        },
    decreases members.len(),
{
    if members.len() > 0 {
        let rest = members.drop_first();
        if members[0].0@ != key {
            lemma_lookup(rest, key);
            match lookup(rest, key) {
                Some(found) => {
                    let i = choose|i: int|
                        0 <= i < rest.len() && (#[trigger] rest[i]).0@ == key && rest[i].1 == found
                            && forall|j: int| 0 <= j < i ==> (#[trigger] rest[j]).0@ != key;
                    assert(members[i + 1].0@ == key);
                    assert forall|j: int| 0 <= j < i + 1 implies (#[trigger] members[j]).0@
                        != key by {
                        if j > 0 {
                            assert(rest[j - 1].0@ != key);
                        }
                    }
                },
                None => {
                    assert forall|i: int| 0 <= i < members.len() implies (
                    #[trigger] members[i]).0@ != key by {
                        if i > 0 {
                            assert(rest[i - 1].0@ != key);
                        }
                    }
                },
            }
        } else {
            assert(members[0].0@ == key);
        }
    }
}

} // verus!
