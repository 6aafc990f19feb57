use crate::text::text_eq;
use vstd::prelude::*;

verus! {

/// A parsed JSON value together with its compact text, as the JSON library
/// that parsed the message prints it.
#[derive(Debug)]
pub struct JsonValue {
    pub kind: JsonKind,
    pub text: String,
}

/// The shape of a JSON value. Numbers are kept only through their text.
#[derive(Debug)]
pub enum JsonKind {
    Null,
    Bool(bool),
    Number,
    Str(String),
    Array(Vec<JsonValue>),
    Object(Vec<JsonMember>),
}

/// One member of an object: its name and its value.
#[derive(Debug)]
pub struct JsonMember {
    pub name: String,
    pub value: JsonValue,
}

/// serde_json's own value type, carried opaquely from the parse to the
/// conversion into [`JsonValue`].
#[verifier::external_type_specification]
#[verifier::external_body]
pub struct ExJsonLibValue(serde_json::Value);

/// What serde_json reads from a text, in the library's form: the parsed
/// value, or nothing when the text is not a JSON value.
pub uninterp spec fn json_of_text(text: Seq<char>) -> Option<JsonValue>;

/// Rewrites a `serde_json::Value` one for one in the library's form: each
/// variant to its [`JsonKind`], each element and member in serde_json's
/// order, and beside each the compact text that `Value::to_string` prints.
/// Only [`parse_json_text`] calls it.
#[verifier::external_body]
fn value_to_json(value: &serde_json::Value) -> JsonValue {
    let kind = match value {
        serde_json::Value::Null => JsonKind::Null,
        serde_json::Value::Bool(b) => JsonKind::Bool(*b),
        serde_json::Value::Number(_) => JsonKind::Number,
        serde_json::Value::String(s) => JsonKind::Str(s.clone()),
        serde_json::Value::Array(items) => JsonKind::Array(items.iter().map(value_to_json).collect()),
        serde_json::Value::Object(members) => JsonKind::Object(
            members.iter().map(|(name, v)| JsonMember { name: name.clone(), value: value_to_json(v) }).collect(),
        ),
    };
    JsonValue { kind, text: value.to_string() }
}

/// Calls `serde_json::from_str::<serde_json::Value>` on the text. The
/// contract names the outcome ([`json_of_text`]): `None` exactly when
/// serde_json refuses the text, else the value it read.
#[verifier::external_body]
pub(crate) fn parse_json_text(text: &str) -> (res: Option<JsonValue>)
    ensures
        res == json_of_text(text@),
{
    match serde_json::from_str::<serde_json::Value>(text) {
        Ok(value) => Some(value_to_json(&value)),
        Err(_) => None,
    }
}

/// The value of the first member named `key`.
pub open spec fn object_get(entries: Seq<JsonMember>, key: Seq<char>) -> Option<JsonValue>
    decreases entries.len(),
{
    if entries.len() == 0 {
        None
    } else if entries[0].name@ == key {
        Some(entries[0].value)
    } else {
        object_get(entries.drop_first(), key)
    }
}

/// The member `key` of an object; nothing for any other value.
pub open spec fn json_get(v: JsonValue, key: Seq<char>) -> Option<JsonValue> {
    match v.kind {
        JsonKind::Object(entries) => object_get(entries@, key),
        _ => None,
    }
}

/// The content of a string value; nothing for any other value.
pub open spec fn json_str(v: JsonValue) -> Option<Seq<char>> {
    match v.kind {
        JsonKind::Str(s) => Some(s@),
        _ => None,
    }
}

/// The elements of an array value; nothing for any other value.
pub open spec fn json_array(v: JsonValue) -> Option<Seq<JsonValue>> {
    match v.kind {
        JsonKind::Array(items) => Some(items@),
        _ => None,
    }
}

impl JsonValue {
    /// The member `key` of an object.
    pub fn get(&self, key: &str) -> (res: Option<&JsonValue>)
        ensures
            match res {
                Some(v) => json_get(*self, key@) == Some(*v),
                None => json_get(*self, key@) is None,
            },
    {
        match &self.kind {
            JsonKind::Object(entries) => {
                let mut i: usize = 0;
                assert(entries@.skip(0) =~= entries@);
                assert(self.kind == JsonKind::Object(*entries));
                assert(json_get(*self, key@) == object_get(entries@, key@));
                while i < entries.len()
                    invariant
                        self.kind == JsonKind::Object(*entries),
                        i <= entries.len(),
                        object_get(entries@, key@) == object_get(entries@.skip(i as int), key@),
                    decreases entries.len() - i,
                {
                    assert(entries@.skip(i as int).drop_first() =~= entries@.skip(i + 1));
                    assert(entries@.skip(i as int)[0] == entries@[i as int]);
                    if text_eq(entries[i].name.as_str(), key) {
                        assert(object_get(entries@.skip(i as int), key@) == Some(
                            entries@[i as int].value,
                        ));
                        return Some(&entries[i].value);
                    }
                    i = i + 1;
                }
                None
            },
            _ => None,
        }
    }

    /// The content of a string value.
    pub fn as_str(&self) -> (res: Option<&str>)
        ensures
            match res {
                Some(s) => json_str(*self) == Some(s@),
                None => json_str(*self) is None,
            },
    {
        match &self.kind {
            JsonKind::Str(s) => Some(s.as_str()),
            _ => None,
        }
    }

    /// The elements of an array value.
    pub fn as_array(&self) -> (res: Option<&Vec<JsonValue>>)
        ensures
            match res {
                Some(items) => json_array(*self) == Some(items@),
                None => json_array(*self) is None,
            },
    {
        match &self.kind {
            JsonKind::Array(items) => Some(items),
            _ => None,
        }
    }
}

} // verus!
