//! JSON documents as the library reads them: API responses, model schemas and
//! prompt files, after their text has been parsed.

use vstd::prelude::*;
use crate::text::{chars_eq, chars_of};
use serde_json::Value;

verus! {

/// A JSON number: an unsigned or a negative integer, or any other number as
/// the text in which serde_json writes the `f64` it read.
#[derive(Debug)]
pub enum JsonNumber {
    PosInt(u64),
    NegInt(i64),
    Float(String),
}

impl JsonNumber {
    /// A copy of this number.
    pub fn duplicate(&self) -> (r: JsonNumber)
        ensures
            r == *self,
    {
        match self {
            JsonNumber::PosInt(n) => JsonNumber::PosInt(*n),
            JsonNumber::NegInt(n) => JsonNumber::NegInt(*n),
            JsonNumber::Float(t) => JsonNumber::Float(t.clone()),
        }
    }
}

/// A JSON value. An object holds its members in a list, in the order given to
/// it; read from text through serde_json, that is sorted by key.
#[derive(Debug)]
pub enum Json {
    Null,
    Bool(bool),
    Number(JsonNumber),
    Str(String),
    Array(Vec<Json>),
    Object(Vec<(String, Json)>),
}

/// The value of the last member named `key`, as serde_json keeps the last of
/// repeated members.
pub open spec fn member(entries: Seq<(String, Json)>, key: Seq<char>) -> Option<Json>
    decreases entries.len(),
{
    if entries.len() == 0 {
        None
    } else if entries.last().0@ == key {
        Some(entries.last().1)
    } else {
        member(entries.drop_last(), key)
    }
}

/// `j[key]` when `j` is an object that has a member `key`.
pub open spec fn get(j: Json, key: Seq<char>) -> Option<Json> {
    match j {
        Json::Object(entries) => member(entries@, key),
        _ => None,
    }
}

/// The string held by `j`, when it is a string.
pub open spec fn str_of(j: Option<Json>) -> Option<Seq<char>> {
    match j {
        Some(Json::Str(s)) => Some(s@),
        _ => None,
    }
}

/// The items of `j`, when it is an array.
pub open spec fn items_of(j: Option<Json>) -> Option<Seq<Json>> {
    match j {
        Some(Json::Array(v)) => Some(v@),
        _ => None,
    }
}

/// The strings among `items`, in order; other items are skipped.
pub open spec fn strings_of(items: Seq<Json>) -> Seq<Seq<char>>
    decreases items.len(),
{
    if items.len() == 0 {
        Seq::empty()
    } else {
        strings_of(items.drop_last()) + match items.last() {
            Json::Str(s) => seq![s@],
            _ => Seq::empty(),
        }
    }
}

pub open spec fn opt_ref(r: Option<&Json>) -> Option<Json> {
    match r {
        Some(x) => Some(*x),
        None => None,
    }
}

impl Json {
    /// `self[key]` when `self` is an object with a member `key`.
    pub fn get(&self, key: &str) -> (r: Option<&Json>)
        ensures
            opt_ref(r) == get(*self, key@),
    {
        let k = chars_of(key);
        self.member_chars(k.as_slice())
    }

    fn member_chars(&self, key: &[char]) -> (r: Option<&Json>)
        ensures
            opt_ref(r) == get(*self, key@),
    {
        match self {
            Json::Object(entries) => {
                let n = entries.len();
                let mut i = n;
                assert(entries@.take(n as int) =~= entries@);
                while i > 0
                    invariant
                        i <= n,
                        n == entries@.len(),
                        get(*self, key@) == member(entries@, key@),
                        member(entries@, key@) == member(entries@.take(i as int), key@),
                    decreases i,
                {
                    let name = chars_of(entries[i - 1].0.as_str());
                    let ghost pre = entries@.take(i as int);
                    assert(pre.drop_last() =~= entries@.take(i - 1));
                    assert(pre.last() == entries@[i - 1]);
                    if chars_eq(name.as_slice(), key) {
                        return Some(&entries[i - 1].1);
                    }
                    i = i - 1;
                }
                None
            },
            _ => None,
        }
    }

    /// The string held by `self`, when it is a string.
    pub fn as_str(&self) -> (r: Option<&String>)
        ensures
            match r {
                Some(s) => *self == Json::Str(*s),
                None => !(*self is Str),
            },
    {
        match self {
            Json::Str(s) => Some(s),
            _ => None,
        }
    }

    /// The items of `self`, when it is an array.
    pub fn as_array(&self) -> (r: Option<&Vec<Json>>)
        ensures
            match r {
                Some(v) => *self == Json::Array(*v),
                None => !(*self is Array),
            },
    {
        match self {
            Json::Array(v) => Some(v),
            _ => None,
        }
    }
}

#[verifier::external_type_specification]
#[verifier::external_body]
pub struct ExJsonValue(serde_json::Value);

/// The value that `serde_json::from_str::<serde_json::Value>` reads from
/// `text`, carried over into a [`Json`]; `None` when it reports an error.
pub uninterp spec fn json_text_value(text: Seq<char>) -> Option<Json>;

/// Carries a `serde_json::Value` over into a [`Json`], kind for kind, keeping
/// the members of an object in the order in which serde_json's map holds them.
/// Nothing is claimed of it here: [`parse_json_text`] is the item whose
/// contract covers the whole reading.
#[verifier::external_body]
fn json_of_value(v: &Value) -> Json {
    match v {
        Value::Null => Json::Null,
        Value::Bool(b) => Json::Bool(*b),
        Value::Number(n) => Json::Number(match (n.as_u64(), n.as_i64()) {
            (Some(u), _) => JsonNumber::PosInt(u),
            (None, Some(i)) => JsonNumber::NegInt(i),
            _ => JsonNumber::Float(n.to_string()),
        }),
        Value::String(s) => Json::Str(s.clone()),
        Value::Array(a) => Json::Array(a.iter().map(json_of_value).collect()),
        Value::Object(o) => Json::Object(o.iter().map(|(k, x)| (k.clone(), json_of_value(x))).collect()),
    }
}

/// Carries a [`Json`] over into a `serde_json::Value`, kind for kind; a
/// `Float` goes back to the number its text spells. Nothing is claimed of it
/// here: [`pointer_of`] is the item whose contract covers its use.
#[verifier::external_body]
fn value_of_json(j: &Json) -> Value {
    match j {
        Json::Null => Value::Null,
        Json::Bool(b) => Value::Bool(*b),
        Json::Number(JsonNumber::PosInt(u)) => Value::from(*u),
        Json::Number(JsonNumber::NegInt(i)) => Value::from(*i),
        Json::Number(JsonNumber::Float(t)) => t.parse().map(Value::Number).unwrap_or(Value::Null),
        Json::Str(s) => Value::String(s.clone()),
        Json::Array(a) => Value::Array(a.iter().map(value_of_json).collect()),
        Json::Object(es) => Value::Object(es.iter().map(|(k, x)| (k.clone(), value_of_json(x))).collect()),
    }
}

/// What `serde_json::Value::pointer` finds under the JSON pointer `p` in the
/// value `j` stands for, carried back into a [`Json`].
pub uninterp spec fn json_pointer(j: Json, p: Seq<char>) -> Option<Json>;

/// `p` is the pointer `parent` followed by one more reference token `t` that
/// holds no `/` or `~` and some character that is not an ASCII digit, so that
/// it can only name an object member, never an array index.
pub open spec fn pointer_child(p: Seq<char>, parent: Seq<char>, t: Seq<char>) -> bool {
    &&& p == parent + seq!['/'] + t
    &&& (parent.len() == 0 || parent[0] == '/')
    &&& forall|i: int| 0 <= i < t.len() ==> t[i] != '/' && t[i] != '~'
    &&& exists|i: int| 0 <= i < t.len() && !('0' <= #[trigger] t[i] && t[i] <= '9')
}

/// Calls `serde_json::Value::pointer` (RFC 6901) with `p` on `j`, carried over
/// into a `serde_json::Value`. The contract claims that the result is the one
/// [`json_pointer`] names for these arguments and, as the source of
/// `Value::pointer` shows (it splits `p` at `/` and folds over the tokens,
/// reading an object by `Map::get` and an array only at a digit token), that
/// a pointer one member token longer than `parent` finds that member of the
/// object that `parent` finds, and nothing when `parent` finds no object.
#[verifier::external_body]
pub(crate) fn pointer_of(j: &Json, p: &str) -> (r: Option<Json>)
    ensures
        r == json_pointer(*j, p@),
        forall|parent: Seq<char>, t: Seq<char>|
            #[trigger] pointer_child(p@, parent, t) ==> r == match json_pointer(*j, parent) {
                Some(Json::Object(es)) => member(es@, t),
                _ => None::<Json>,
            },
{
    value_of_json(j).pointer(p).map(json_of_value)
}

/// The message of the error that `serde_json::from_str::<serde_json::Value>`
/// reports for `text` (what the error displays, its position included).
pub uninterp spec fn json_text_error(text: Seq<char>) -> Seq<char>;

/// Calls `serde_json::from_str::<serde_json::Value>` on `text`. The contract
/// claims that a success yields the value that [`json_text_value`] names for
/// this text, and that a failure happens exactly when it names none and
/// carries the message that [`json_text_error`] names for this text; the
/// wording of that message is serde_json's and is not stated here.
#[verifier::external_body]
pub(crate) fn parse_json_text(text: &str) -> (r: Result<Json, String>)
    ensures
        match r {
            Ok(j) => json_text_value(text@) == Some(j),
            Err(m) => json_text_value(text@) is None && m@ == json_text_error(text@),
        },
{
    match serde_json::from_str::<serde_json::Value>(text) {
        Ok(v) => Ok(json_of_value(&v)),
        Err(e) => Err(e.to_string()),
    }
}

} // verus!
