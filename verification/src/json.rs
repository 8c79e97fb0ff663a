//! A plain tree of parsed JSON data, and the trusted boundary to the
//! `serde_json` parser that produces it.
//!
//! The record parsers of this library work on [`JsonValue`], a datatype
//! the verifier can reason about.  Only the step from raw text to that
//! tree is trusted: `serde_json` implements the JSON grammar.

use vstd::prelude::*;

verus! {

/// A parsed JSON document.  Numbers are kept only when they are
/// unsigned integers, the single numeric form the record tables use;
/// any other number is represented as `Null`, which every record
/// parser treats as a missing field.
pub enum JsonValue {
    Null,
    Bool(bool),
    UInt(u64),
    Str(String),
    Arr(Vec<JsonValue>),
    Obj(Vec<(String, JsonValue)>),
}

#[verifier::external_type_specification]
#[verifier::external_body]
pub struct ExValue(serde_json::Value);

/// The [`JsonValue`] tree that a `serde_json::Value` holds, variant for
/// variant; object entries keep the map's iteration order.
pub uninterp spec fn json_tree(v: serde_json::Value) -> JsonValue;

/// What parsing a text as JSON yields: `Some` tree exactly when the text
/// is a well-formed JSON document.  The result depends on the text alone.
pub uninterp spec fn json_of(s: Seq<char>) -> Option<JsonValue>;

/// Relies on `serde_json::from_str::<Value>`: parses a JSON document
/// deterministically, returning a value for exactly the well-formed
/// texts.
#[verifier::external_body]
fn parse_json_value(s: &str) -> (r: Option<serde_json::Value>)
    ensures
        match r {
            Option::Some(v) => json_of(s@) == Option::Some(json_tree(v)),
            Option::None => json_of(s@) is None,
        },
{
    serde_json::from_str::<serde_json::Value>(s).ok()
}

/// Relies on the six variants of `serde_json::Value`: rebuilds the same
/// tree one variant at a time; integers through `Number::as_u64`, any
/// other number becomes `Null`.
#[verifier::external_body]
fn value_to_tree(v: &serde_json::Value) -> (r: JsonValue)
    ensures
        r == json_tree(*v),
{
    match v {
        serde_json::Value::Null => JsonValue::Null,
        serde_json::Value::Bool(b) => JsonValue::Bool(*b),
        serde_json::Value::Number(n) => match n.as_u64() {
            Some(u) => JsonValue::UInt(u),
            None => JsonValue::Null,
        },
        serde_json::Value::String(s) => JsonValue::Str(s.clone()),
        serde_json::Value::Array(a) => JsonValue::Arr(a.iter().map(value_to_tree).collect()),
        serde_json::Value::Object(m) => JsonValue::Obj(
            m.iter().map(|(k, x)| (k.clone(), value_to_tree(x))).collect(),
        ),
    }
}

/// Parses a JSON text into the library's tree; `None` exactly when the
/// text is not well-formed JSON.
pub fn parse_json(s: &str) -> (r: Option<JsonValue>)
    ensures
        r == json_of(s@),
{
    match parse_json_value(s) {
        Some(v) => Some(value_to_tree(&v)),
        None => None,
    }
}

impl JsonValue {
    /// The number this node holds, if it is an unsigned integer.
    pub fn as_u64(&self) -> (r: Option<u64>)
        ensures
            r == (match *self {
                JsonValue::UInt(u) => Option::Some(u),
                _ => Option::<u64>::None,
            }),
    {
        match self {
            JsonValue::UInt(u) => Some(*u),
            _ => None,
        }
    }

    /// The boolean this node holds, if any.
    pub fn as_bool(&self) -> (r: Option<bool>)
        ensures
            r == (match *self {
                JsonValue::Bool(b) => Option::Some(b),
                _ => Option::<bool>::None,
            }),
    {
        match self {
            JsonValue::Bool(b) => Some(*b),
            _ => None,
        }
    }

    /// The text this node holds, if it is a string.
    pub fn as_str(&self) -> (r: Option<&String>)
        ensures
            match *self {
                JsonValue::Str(ref s) => r == Option::Some(s),
                _ => r is None,
            },
    {
        match self {
            JsonValue::Str(s) => Some(s),
            _ => None,
        }
    }

    /// The elements of this node, if it is an array.
    pub fn as_array(&self) -> (r: Option<&Vec<JsonValue>>)
        ensures
            match *self {
                JsonValue::Arr(ref a) => r == Option::Some(a),
                _ => r is None,
            },
    {
        match self {
            JsonValue::Arr(a) => Some(a),
            _ => None,
        }
    }

    /// The entries of this node, if it is an object.
    pub fn as_object(&self) -> (r: Option<&Vec<(String, JsonValue)>>)
        ensures
            match *self {
                JsonValue::Obj(ref o) => r == Option::Some(o),
                _ => r is None,
            },
    {
        match self {
            JsonValue::Obj(o) => Some(o),
            _ => None,
        }
    }

    /// Whether this node is an object with an entry under `key`.
    pub open spec fn spec_get(&self, key: Seq<char>) -> Option<JsonValue> {
        match *self {
            JsonValue::Obj(ref o) => spec_lookup(o@, key),
            _ => Option::None,
        }
    }

    /// The first entry under `key`, if this node is an object holding
    /// one.
    #[verifier::loop_isolation(false)]
    pub fn get(&self, key: &str) -> (r: Option<&JsonValue>)
        ensures
            match r {
                Option::Some(v) => self.spec_get(key@) == Option::Some(*v),
                Option::None => self.spec_get(key@) is None,
            },
    {
        match self {
            JsonValue::Obj(o) => {
                let n: usize = o.len();
                proof {
                    assert(o@.skip(0) =~= o@);
                }
                for i in 0..n
                    invariant
                        n == o@.len(),
                        forall|j: int| 0 <= j < i ==> #[trigger] o@[j].0@ != key@,
                        spec_lookup(o@, key@) == spec_lookup(o@.skip(i as int), key@),
                    decreases n - i,
                {
                    proof {
                        assert(o@.skip(i as int)[0] == o@[i as int]);
                        assert(o@.skip(i as int).drop_first() =~= o@.skip(i + 1));
                    }
                    if str_eq_str(o[i].0.as_str(), key) {
                        proof {
                            assert(spec_lookup(o@.skip(i as int), key@) == Option::Some(
                                o@[i as int].1,
                            ));
                        }
                        return Some(&o[i].1);
                    }
                }
                proof {
                    assert(o@.skip(n as int) =~= Seq::<(String, JsonValue)>::empty());
                }
                None
            },
            _ => None,
        }
    }
}

impl JsonValue {
    /// The number stored under `key`, when this node is an object
    /// holding an unsigned integer there.
    pub open spec fn spec_get_u64(&self, key: Seq<char>) -> Option<u64> {
        match self.spec_get(key) {
            Option::Some(JsonValue::UInt(u)) => Option::Some(u),
            _ => Option::None,
        }
    }

    /// The text stored under `key`, when this node is an object holding
    /// a string there.
    pub open spec fn spec_get_str(&self, key: Seq<char>) -> Option<Seq<char>> {
        match self.spec_get(key) {
            Option::Some(JsonValue::Str(s)) => Option::Some(s@),
            _ => Option::None,
        }
    }

    /// The boolean stored under `key`, when this node is an object
    /// holding one there.
    pub open spec fn spec_get_bool(&self, key: Seq<char>) -> Option<bool> {
        match self.spec_get(key) {
            Option::Some(JsonValue::Bool(b)) => Option::Some(b),
            _ => Option::None,
        }
    }

    pub fn get_u64(&self, key: &str) -> (r: Option<u64>)
        ensures
            r == self.spec_get_u64(key@),
    {
        match self.get(key) {
            Some(v) => v.as_u64(),
            None => None,
        }
    }

    pub fn get_str<'a>(&'a self, key: &str) -> (r: Option<&'a String>)
        ensures
            match r {
                Option::Some(s) => self.spec_get_str(key@) == Option::Some(s@),
                Option::None => self.spec_get_str(key@) is None,
            },
    {
        match self.get(key) {
            Some(v) => v.as_str(),
            None => None,
        }
    }

    pub fn get_bool(&self, key: &str) -> (r: Option<bool>)
        ensures
            r == self.spec_get_bool(key@),
    {
        match self.get(key) {
            Some(v) => v.as_bool(),
            None => None,
        }
    }
}

/// The value under the first entry whose name is `key`.
pub open spec fn spec_lookup(entries: Seq<(String, JsonValue)>, key: Seq<char>) -> Option<
    JsonValue,
>
    decreases entries.len(),
{
    if entries.len() == 0 {
        Option::None
    } else if entries[0].0@ == key {
        Option::Some(entries[0].1)
    } else {
        spec_lookup(entries.drop_first(), key)
    }
}

/// Whether two string slices hold the same characters.
pub fn str_eq_str(a: &str, b: &str) -> (r: bool)
    ensures
        r == (a@ == b@),
{
    let n: usize = a.unicode_len();
    let m: usize = b.unicode_len();
    if n != m {
        return false;
    }
    for i in 0..n
        invariant
            n == a@.len(),
            n == b@.len(),
            forall|j: int| 0 <= j < i ==> a@[j] == b@[j],
        decreases n - i,
    {
        if a.get_char(i) != b.get_char(i) {
            return false;
        }
    }
    proof {
        assert(a@ =~= b@);
    }
    true
}

} // verus!
