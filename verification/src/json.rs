//! JSON values.

use vstd::prelude::*;

use crate::text::str_eq;
use crate::text_map::rank;

verus! {

/// A JSON value, for specifications.
pub enum JsonSpec {
    Null,
    Bool(bool),
    Unsigned(u64),
    Negative(i64),
    Fraction(Seq<char>),
    Text(Seq<char>),
    Array(Seq<JsonSpec>),
    Object(Seq<(Seq<char>, JsonSpec)>),
}

#[verifier::external_type_specification]
#[verifier::external_body]
pub struct ExNumber(serde_json::Number);

/// How `Display` of `serde_json::Number` writes a number.
pub uninterp spec fn number_text(number: serde_json::Number) -> Seq<char>;

/// A number that is not whole, as it was read. Its view is how it is written. Only reading
/// makes one.
#[derive(Debug, PartialEq, Eq)]
pub struct Fraction {
    number: serde_json::Number,
}

impl View for Fraction {
    type V = Seq<char>;

    closed spec fn view(&self) -> Seq<char> {
        number_text(self.number)
    }
}

/// `Clone` of `serde_json::Number`: the same number, which is written in the same way.
#[verifier::external_body]
fn copy_number(number: &serde_json::Number) -> (copy: serde_json::Number)
    ensures
        number_text(copy) == number_text(*number),
{
    number.clone()
}

impl Fraction {
    /// The same number.
    pub fn copy(&self) -> (copy: Fraction)
        ensures
            copy@ == self@,
    {
        Fraction { number: copy_number(&self.number) }
    }
}

/// A JSON value.
#[derive(Debug, PartialEq, Eq)]
pub enum Json {
    Null,
    Bool(bool),
    /// A whole number that is not negative.
    Unsigned(u64),
    /// A whole number below zero.
    Negative(i64),
    /// Any other number.
    Fraction(Fraction),
    Text(String),
    Array(Vec<Json>),
    /// Members in the order in which they are written.
    Object(Vec<(String, Json)>),
}

/// What a value holds.
pub open spec fn json_view(json: Json) -> JsonSpec
    decreases json,
{
    match json {
        Json::Null => JsonSpec::Null,
        Json::Bool(value) => JsonSpec::Bool(value),
        Json::Unsigned(value) => JsonSpec::Unsigned(value),
        Json::Negative(value) => JsonSpec::Negative(value),
        Json::Fraction(number) => JsonSpec::Fraction(number@),
        Json::Text(text) => JsonSpec::Text(text@),
        Json::Array(items) => JsonSpec::Array(
            Seq::new(
                items@.len(),
                |i: int|
                    if 0 <= i < items@.len() {
                        json_view(items@[i])
                    } else {
                        JsonSpec::Null
                    },
            ),
        ),
        Json::Object(members) => JsonSpec::Object(
            Seq::new(
                members@.len(),
                |i: int|
                    if 0 <= i < members@.len() {
                        (members@[i].0@, json_view(members@[i].1))
                    } else {
                        (Seq::empty(), JsonSpec::Null)
                    },
            ),
        ),
    }
}

impl View for Json {
    type V = JsonSpec;

    open spec fn view(&self) -> JsonSpec {
        json_view(*self)
    }
}

// ---------------------------------------------------------------------------
// Reading

/// The value of the first member with this key.
pub open spec fn member(members: Seq<(Seq<char>, JsonSpec)>, key: Seq<char>) -> Option<JsonSpec>
    decreases members.len(),
{
    if members.len() == 0 {
        None
    } else if members[0].0 == key {
        Some(members[0].1)
    } else {
        member(members.drop_first(), key)
    }
}

impl JsonSpec {
    pub open spec fn get(self, key: Seq<char>) -> Option<JsonSpec> {
        match self {
            JsonSpec::Object(members) => member(members, key),
            _ => None,
        }
    }

    pub open spec fn as_text(self) -> Option<Seq<char>> {
        match self {
            JsonSpec::Text(text) => Some(text),
            _ => None,
        }
    }

    pub open spec fn as_bool(self) -> Option<bool> {
        match self {
            JsonSpec::Bool(value) => Some(value),
            _ => None,
        }
    }

    pub open spec fn as_u64(self) -> Option<u64> {
        match self {
            JsonSpec::Unsigned(value) => Some(value),
            _ => None,
        }
    }

    pub open spec fn as_i64(self) -> Option<i64> {
        match self {
            JsonSpec::Unsigned(value) => if value <= i64::MAX {
                Some(value as i64)
            } else {
                None
            },
            JsonSpec::Negative(value) => Some(value),
            _ => None,
        }
    }

    pub open spec fn as_object(self) -> Option<Seq<(Seq<char>, JsonSpec)>> {
        match self {
            JsonSpec::Object(members) => Some(members),
            _ => None,
        }
    }

    /// The text under a key.
    pub open spec fn text_at(self, key: Seq<char>) -> Option<Seq<char>> {
        match self.get(key) {
            Some(value) => value.as_text(),
            None => None,
        }
    }
}

pub open spec fn optional_view(value: Option<&Json>) -> Option<JsonSpec> {
    match value {
        Some(value) => Some(value@),
        None => None,
    }
}

pub open spec fn optional_text(text: Option<&str>) -> Option<Seq<char>> {
    match text {
        Some(text) => Some(text@),
        None => None,
    }
}

pub open spec fn members_view(members: Seq<(String, Json)>) -> Seq<(Seq<char>, JsonSpec)> {
    Seq::new(members.len(), |i: int| (members[i].0@, members[i].1@))
}

pub open spec fn items_view(items: Seq<Json>) -> Seq<JsonSpec> {
    Seq::new(items.len(), |i: int| items[i]@)
}

/// An array holds the values of its items.
pub proof fn lemma_array_view(items: Vec<Json>)
    ensures
        Json::Array(items)@ == JsonSpec::Array(items_view(items@)),
{
    reveal_with_fuel(json_view, 2);
    assert(Json::Array(items)@->Array_0 =~= items_view(items@));
}

/// An object holds the keys and values of its members.
pub proof fn lemma_object_view(members: Vec<(String, Json)>)
    ensures
        Json::Object(members)@ == JsonSpec::Object(members_view(members@)),
{
    reveal_with_fuel(json_view, 2);
    assert(Json::Object(members)@->Object_0 =~= members_view(members@));
}

/// The first member with this key.
fn find_member<'j>(members: &'j Vec<(String, Json)>, key: &str) -> (value: Option<&'j Json>)
    ensures
        optional_view(value) == member(members_view(members@), key@),
        value matches Some(value) ==> exists|k: int|
            0 <= k < members@.len() && *value == (#[trigger] members@[k]).1,
{
    let ghost all = members_view(members@);
    let mut k: usize = 0;
    assert(all.skip(0) =~= all);
    while k < members.len()
        invariant
            all == members_view(members@),
            k <= members@.len(),
            member(all, key@) == member(all.skip(k as int), key@),
        decreases members.len() - k,
    {
        assert(all.skip(k as int)[0] == (members@[k as int].0@, members@[k as int].1@));
        if str_eq(members[k].0.as_str(), key) {
            return Some(&members[k].1);
        }
        assert(all.skip(k as int).drop_first() =~= all.skip(k + 1));
        k += 1;
    }
    None
}

impl Json {
    /// The value of the first member with this key.
    pub fn get(&self, key: &str) -> (value: Option<&Json>)
        ensures
            optional_view(value) == self@.get(key@),
            value matches Some(value) ==> decreases_to!(*self => *value),
    {
        match self {
            Json::Object(members) => {
                proof {
                    lemma_object_view(*members);
                }
                let value = find_member(members, key);
                proof {
                    if let Some(found) = value {
                        let k = choose|k: int|
                            0 <= k < members@.len() && *found == (#[trigger] members@[k]).1;
                        assert(decreases_to!(*self => *members));
                        assert(decreases_to!(*members => members@));
                        assert(decreases_to!(members@ => members@[k]));
                        assert(decreases_to!(members@[k] => members@[k].1));
                    }
                }
                value
            },
            _ => None,
        }
    }

    pub fn as_str(&self) -> (text: Option<&str>)
        ensures
            optional_text(text) == self@.as_text(),
    {
        match self {
            Json::Text(text) => Some(text.as_str()),
            _ => None,
        }
    }

    pub fn as_bool(&self) -> (value: Option<bool>)
        ensures
            value == self@.as_bool(),
    {
        match self {
            Json::Bool(value) => Some(*value),
            _ => None,
        }
    }

    pub fn as_u64(&self) -> (value: Option<u64>)
        ensures
            value == self@.as_u64(),
    {
        match self {
            Json::Unsigned(value) => Some(*value),
            _ => None,
        }
    }

    pub fn as_i64(&self) -> (value: Option<i64>)
        ensures
            value == self@.as_i64(),
    {
        match self {
            Json::Unsigned(value) => if *value <= 0x7fff_ffff_ffff_ffff {
                Some(*value as i64)
            } else {
                None
            },
            Json::Negative(value) => Some(*value),
            _ => None,
        }
    }

    /// The text under a key.
    pub fn text_at(&self, key: &str) -> (text: Option<&str>)
        ensures
            optional_text(text) == self@.text_at(key@),
    {
        match self.get(key) {
            Some(value) => value.as_str(),
            None => None,
        }
    }

    /// A copy of this value.
    pub fn copy(&self) -> (json: Json)
        ensures
            json@ == self@,
        decreases self,
    {
        match self {
            Json::Null => Json::Null,
            Json::Bool(value) => Json::Bool(*value),
            Json::Unsigned(value) => Json::Unsigned(*value),
            Json::Negative(value) => Json::Negative(*value),
            Json::Fraction(number) => Json::Fraction(number.copy()),
            Json::Text(text) => Json::Text(text.as_str().to_owned()),
            Json::Array(items) => {
                let mut copied: Vec<Json> = Vec::new();
                let mut k: usize = 0;
                while k < items.len()
                    invariant
                        *self == Json::Array(*items),
                        k <= items@.len(),
                        copied@.len() == k,
                        forall|j: int| 0 <= j < k ==> (#[trigger] copied@[j])@ == items@[j]@,
                    decreases items.len() - k,
                {
                    assert(decreases_to!(*self => self->Array_0));
                    assert(decreases_to!(*items => items@));
                    assert(decreases_to!(items@ => items@[k as int]));
                    copied.push(items[k].copy());
                    k += 1;
                }
                proof {
                    lemma_array_view(*items);
                    lemma_array_view(copied);
                    assert(items_view(copied@) =~= items_view(items@));
                }
                Json::Array(copied)
            },
            Json::Object(members) => {
                let mut copied: Vec<(String, Json)> = Vec::new();
                let mut k: usize = 0;
                while k < members.len()
                    invariant
                        *self == Json::Object(*members),
                        k <= members@.len(),
                        copied@.len() == k,
                        forall|j: int|
                            0 <= j < k ==> (#[trigger] copied@[j]).0@ == members@[j].0@
                                && copied@[j].1@ == members@[j].1@,
                    decreases members.len() - k,
                {
                    assert(decreases_to!(*self => self->Object_0));
                    assert(decreases_to!(*members => members@));
                    assert(decreases_to!(members@ => members@[k as int]));
                    assert(decreases_to!(members@[k as int] => members@[k as int].1));
                    let key = members[k].0.as_str().to_owned();
                    copied.push((key, members[k].1.copy()));
                    k += 1;
                }
                proof {
                    lemma_object_view(*members);
                    lemma_object_view(copied);
                    assert(members_view(copied@) =~= members_view(members@));
                }
                Json::Object(copied)
            },
        }
    }
}

// ---------------------------------------------------------------------------
// Parsing

#[verifier::external_type_specification]
#[verifier::external_body]
pub struct ExValue(serde_json::Value);

/// What a parsed value holds.
pub uninterp spec fn value_json(value: serde_json::Value) -> JsonSpec;

/// What `serde_json::from_str` reads from a text, or what the error says that it reports.
pub uninterp spec fn parsed_text(text: Seq<char>) -> Result<JsonSpec, Seq<char>>;

/// What `serde_json::from_slice` reads from bytes, or what the error says that it reports.
pub uninterp spec fn parsed_bytes(bytes: Seq<u8>) -> Result<JsonSpec, Seq<char>>;

/// Parsing came to this.
pub open spec fn came_to(
    result: Result<serde_json::Value, String>,
    parsed: Result<JsonSpec, Seq<char>>,
) -> bool {
    match result {
        Ok(value) => parsed == Ok::<JsonSpec, Seq<char>>(value_json(value)),
        Err(cause) => parsed == Err::<JsonSpec, Seq<char>>(cause@),
    }
}

/// `serde_json::from_str` into a `serde_json::Value`, with its error as `Display` writes it.
/// Its result is a function of the text.
#[verifier::external_body]
fn value_from_str(text: &str) -> (result: Result<serde_json::Value, String>)
    ensures
        came_to(result, parsed_text(text@)),
{
    match serde_json::from_str(text) {
        Ok(value) => Ok(value),
        Err(error) => Err(error.to_string()),
    }
}

/// `serde_json::from_slice` into a `serde_json::Value`, with its error as `Display` writes it.
/// Its result is a function of the bytes.
#[verifier::external_body]
fn value_from_slice(bytes: &[u8]) -> (result: Result<serde_json::Value, String>)
    ensures
        came_to(result, parsed_bytes(bytes@)),
{
    match serde_json::from_slice(bytes) {
        Ok(value) => Ok(value),
        Err(error) => Err(error.to_string()),
    }
}

/// A `serde_json::Value` as a value of this library, variant by variant. The members of an
/// object come in the order of the value's own map.
#[verifier::external_body]
fn json_of(value: serde_json::Value) -> (json: Json)
    ensures
        json@ == value_json(value),
{
    match value {
        serde_json::Value::Null => Json::Null,
        serde_json::Value::Bool(value) => Json::Bool(value),
        serde_json::Value::Number(number) => match (number.as_u64(), number.as_i64()) {
            (Some(value), _) => Json::Unsigned(value),
            (None, Some(value)) => Json::Negative(value),
            (None, None) => Json::Fraction(Fraction { number }),
        },
        serde_json::Value::String(text) => Json::Text(text),
        serde_json::Value::Array(items) => Json::Array(items.into_iter().map(json_of).collect()),
        serde_json::Value::Object(map) => {
            Json::Object(map.into_iter().map(|(key, value)| (key, json_of(value))).collect())
        }
    }
}

/// Why text or bytes are not JSON. Its view is what it says.
#[derive(Debug, PartialEq, Eq)]
pub struct JsonError {
    pub cause: String,
}

impl View for JsonError {
    type V = Seq<char>;

    open spec fn view(&self) -> Seq<char> {
        self.cause@
    }
}

/// Reads a JSON text.
pub fn parse_json(text: &str) -> (result: Result<Json, JsonError>)
    ensures
        match result {
            Ok(json) => parsed_text(text@) == Ok::<JsonSpec, Seq<char>>(json@),
            Err(error) => parsed_text(text@) == Err::<JsonSpec, Seq<char>>(error@),
        },
{
    match value_from_str(text) {
        Ok(value) => Ok(json_of(value)),
        Err(cause) => Err(JsonError { cause }),
    }
}

/// Reads JSON from bytes.
pub fn parse_json_bytes(bytes: &[u8]) -> (result: Result<Json, JsonError>)
    ensures
        match result {
            Ok(json) => parsed_bytes(bytes@) == Ok::<JsonSpec, Seq<char>>(json@),
            Err(error) => parsed_bytes(bytes@) == Err::<JsonSpec, Seq<char>>(error@),
        },
{
    match value_from_slice(bytes) {
        Ok(value) => Ok(json_of(value)),
        Err(cause) => Err(JsonError { cause }),
    }
}

// ---------------------------------------------------------------------------
// Writing

pub open spec fn member_keys(members: Seq<(Seq<char>, JsonSpec)>) -> Seq<Seq<char>> {
    members.map_values(|entry: (Seq<char>, JsonSpec)| entry.0)
}

/// Sets the value of a member, or adds the member in the order of keys.
pub open spec fn with_member(
    members: Seq<(Seq<char>, JsonSpec)>,
    entry: (Seq<char>, JsonSpec),
) -> Seq<(Seq<char>, JsonSpec)> {
    let place = rank(member_keys(members), entry.0);
    if member_keys(members).contains(entry.0) {
        members.update(place, entry)
    } else {
        members.insert(place, entry)
    }
}

/// The members in the order of their keys, the last of each key.
pub open spec fn sorted_members(members: Seq<(Seq<char>, JsonSpec)>) -> Seq<(Seq<char>, JsonSpec)>
    decreases members.len(),
{
    if members.len() == 0 {
        members
    } else {
        with_member(sorted_members(members.drop_last()), members.last())
    }
}

/// The value with the members of every object in the order of their keys, and every number
/// that is not negative held as such.
pub open spec fn ordered(json: JsonSpec) -> JsonSpec
    decreases json,
{
    match json {
        JsonSpec::Negative(value) => if value >= 0 {
            JsonSpec::Unsigned(value as u64)
        } else {
            json
        },
        JsonSpec::Array(items) => JsonSpec::Array(
            Seq::new(
                items.len(),
                |i: int|
                    if 0 <= i < items.len() {
                        ordered(items[i])
                    } else {
                        JsonSpec::Null
                    },
            ),
        ),
        JsonSpec::Object(members) => JsonSpec::Object(
            sorted_members(
                Seq::new(
                    members.len(),
                    |i: int|
                        if 0 <= i < members.len() {
                            (members[i].0, ordered(members[i].1))
                        } else {
                            (Seq::empty(), JsonSpec::Null)
                        },
                ),
            ),
        ),
        _ => json,
    }
}

/// How `Display` of `serde_json::Value` writes a value.
pub uninterp spec fn rendered(json: JsonSpec) -> Seq<char>;

/// No character of the text is NUL.
pub open spec fn without_nul(text: Seq<char>) -> bool {
    forall|i: int| 0 <= i < text.len() ==> #[trigger] text[i] != '\0'
}

/// A value of this library as a `serde_json::Value`, variant by variant. Collecting members
/// into a `serde_json::Map` puts them in the order of their keys and keeps the last of each. A
/// fraction is the number that was read.
#[verifier::external_body]
fn value_of(json: &Json) -> (value: serde_json::Value)
    ensures
        value_json(value) == ordered(json@),
{
    match json {
        Json::Null => serde_json::Value::Null,
        Json::Bool(value) => serde_json::Value::from(*value),
        Json::Unsigned(value) => serde_json::Value::from(*value),
        Json::Negative(value) => serde_json::Value::from(*value),
        Json::Fraction(fraction) => serde_json::Value::Number(fraction.number.clone()),
        Json::Text(text) => serde_json::Value::from(text.as_str()),
        Json::Array(items) => items.iter().map(value_of).collect(),
        Json::Object(members) => {
            members.iter().map(|(key, value)| (key.clone(), value_of(value))).collect()
        }
    }
}

/// `Display` of a `serde_json::Value`, which writes a compact text. Control characters are
/// written as escapes, so the text holds no NUL.
#[verifier::external_body]
fn value_to_string(value: &serde_json::Value) -> (text: String)
    ensures
        text@ == rendered(value_json(*value)),
        without_nul(text@),
{
    value.to_string()
}

impl Json {
    /// This value as a JSON text, which holds no NUL.
    pub fn render(&self) -> (text: String)
        ensures
            text@ == rendered(ordered(self@)),
            without_nul(text@),
    {
        let value = value_of(self);
        value_to_string(&value)
    }
}

} // verus!
