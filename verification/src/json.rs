use vstd::prelude::*;

use crate::support::str_eq;

verus! {

/// A JSON value as the map configuration holds it. Numbers that are
/// integers fitting `i64` keep their value; other numbers only their kind.
/// Object members keep their order; their keys differ.
pub enum Json {
    Null,
    Bool(bool),
    Int(i64),
    Float,
    Str(String),
    Array(Vec<Json>),
    Object(Vec<(String, Json)>),
}

/// The `serde_json` document type, carried through the wrapper below.
#[verifier::external_type_specification]
#[verifier::external_body]
pub struct ExJsonValue(serde_json::Value);

/// The document serde_json reads from a text, as the library's `Json`
/// (see `Json`); `None` when the text is not JSON.
pub uninterp spec fn json_of_text(text: Seq<char>) -> Option<Json>;

/// `serde_json::from_str::<serde_json::Value>` on a text, the document
/// turned into a `Json` one value for one. Claimed: the result is
/// `json_of_text` of the text.
#[verifier::external_body]
pub(crate) fn parse_json_text(text: &str) -> (res: Option<Json>)
    ensures
        res == json_of_text(text@),
{
    match serde_json::from_str::<serde_json::Value>(text) {
        Ok(v) => Some(json_from_value(&v)),
        Err(_) => None,
    }
}

/// A `serde_json::Value` as a `Json`, variant for variant: an integer that
/// fits `i64` keeps its value, another number only its kind; object members
/// keep serde_json's order.
#[verifier::external_body]
fn json_from_value(v: &serde_json::Value) -> Json {
    match v {
        serde_json::Value::Null => Json::Null,
        serde_json::Value::Bool(b) => Json::Bool(*b),
        serde_json::Value::Number(n) => match n.as_i64() {
            Some(i) => Json::Int(i),
            None => Json::Float,
        },
        serde_json::Value::String(t) => Json::Str(t.clone()),
        serde_json::Value::Array(a) => Json::Array(a.iter().map(json_from_value).collect()),
        serde_json::Value::Object(m) => Json::Object(m.iter().map(|(k, x)| (k.clone(), json_from_value(x))).collect()),
    }
}

/// The position of the member called `key` among `members`, the first if
/// several share it.
pub open spec fn member_position(members: Seq<(String, Json)>, key: Seq<char>) -> Option<int>
    decreases members.len(),
{
    if members.len() == 0 {
        None
    } else if members[0].0@ == key {
        Some(0)
    } else {
        match member_position(members.drop_first(), key) {
            Some(i) => Some(i + 1),
            None => None,
        }
    }
}

pub proof fn lemma_member_position(members: Seq<(String, Json)>, key: Seq<char>)
    ensures
        match member_position(members, key) {
            Some(i) => 0 <= i < members.len() && members[i].0@ == key && forall|j: int|
                0 <= j < i ==> members[j].0@ != key,
            None => forall|j: int| 0 <= j < members.len() ==> members[j].0@ != key,
        },
    decreases members.len(),
{
    if members.len() > 0 && members[0].0@ != key {
        lemma_member_position(members.drop_first(), key);
        assert forall|j: int| 1 <= j < members.len() implies members[j] == members.drop_first()[j - 1] by {}
    }
}

/// `value[key]`: the member `key` of an object; nothing for other values.
pub open spec fn json_get(v: Json, key: Seq<char>) -> Option<Json> {
    match v {
        Json::Object(m) => match member_position(m@, key) {
            Some(i) => Some(m@[i].1),
            None => None,
        },
        _ => None,
    }
}

pub open spec fn json_str(v: Json) -> Option<Seq<char>> {
    match v {
        Json::Str(s) => Some(s@),
        _ => None,
    }
}

pub open spec fn json_i64(v: Json) -> Option<i64> {
    match v {
        Json::Int(i) => Some(i),
        _ => None,
    }
}

pub open spec fn json_bool(v: Json) -> Option<bool> {
    match v {
        Json::Bool(b) => Some(b),
        _ => None,
    }
}

/// `value[key]` as a string, if it is one.
pub open spec fn get_str(v: Json, key: Seq<char>) -> Option<Seq<char>> {
    match json_get(v, key) {
        Some(x) => json_str(x),
        None => None,
    }
}

impl Json {
    /// The member `key` of an object (`Value::get`).
    pub fn get(&self, key: &str) -> (res: Option<&Json>)
        ensures
            match res {
                Some(r) => json_get(*self, key@) == Some(*r),
                None => json_get(*self, key@) is None,
            },
    {
        match self {
            Json::Object(m) => {
                let mut i: usize = 0;
                while i < m.len()
                    invariant
                        *self == Json::Object(*m),
                        i <= m@.len(),
                        forall|j: int| 0 <= j < i ==> m@[j].0@ != key@,
                    decreases m@.len() - i,
                {
                    if str_eq(m[i].0.as_str(), key) {
                        proof {
                            lemma_member_position(m@, key@);
                            let p = member_position(m@, key@);
                            if p is Some {
                                let q = p.unwrap();
                                assert(!(q < i));
                                assert(!(q > i));
                            }
                        }
                        return Some(&m[i].1);
                    }
                    i = i + 1;
                }
                proof {
                    lemma_member_position(m@, key@);
                }
                None
            },
            _ => None,
        }
    }

    /// The string a value holds (`Value::as_str`).
    pub fn as_str(&self) -> (res: Option<&str>)
        ensures
            match res {
                Some(s) => json_str(*self) == Some(s@),
                None => json_str(*self) is None,
            },
    {
        match self {
            Json::Str(s) => Some(s.as_str()),
            _ => None,
        }
    }

    /// The integer a value holds (`Value::as_i64`).
    pub fn as_i64(&self) -> (res: Option<i64>)
        ensures
            res == json_i64(*self),
    {
        match self {
            Json::Int(i) => Some(*i),
            _ => None,
        }
    }

    /// The boolean a value holds (`Value::as_bool`).
    pub fn as_bool(&self) -> (res: Option<bool>)
        ensures
            res == json_bool(*self),
    {
        match self {
            Json::Bool(b) => Some(*b),
            _ => None,
        }
    }

    /// The elements of an array (`Value::as_array`).
    pub fn as_array(&self) -> (res: Option<&Vec<Json>>)
        ensures
            match *self {
                Json::Array(v) => res == Some(&v),
                _ => res is None,
            },
    {
        match self {
            Json::Array(v) => Some(v),
            _ => None,
        }
    }

    /// The members of an object (`Value::as_object`).
    pub fn as_object(&self) -> (res: Option<&Vec<(String, Json)>>)
        ensures
            match *self {
                Json::Object(m) => res == Some(&m),
                _ => res is None,
            },
    {
        match self {
            Json::Object(m) => Some(m),
            _ => None,
        }
    }
}

/// `value[key]` as a string, if present and a string.
pub fn get_json_str<'a>(data: &'a Json, key: &str) -> (res: Option<&'a str>)
    ensures
        match res {
            Some(s) => get_str(*data, key@) == Some(s@),
            None => get_str(*data, key@) is None,
        },
{
    match data.get(key) {
        Some(v) => v.as_str(),
        None => None,
    }
}

} // verus!
