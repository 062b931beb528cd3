//! JSON values as the registry index describes packages, read with `serde_json`.
use vstd::prelude::*;
use crate::utils::strings::str_eq;

verus! {

/// A JSON value as mathematical data (a number by its text).
pub enum JsonData {
    Null,
    Bool(bool),
    Num(Seq<char>),
    Str(Seq<char>),
    Array(Seq<JsonData>),
    Object(Seq<(Seq<char>, JsonData)>),
}

/// A JSON value (a number kept as its text: nothing here computes with one).
pub enum JsonValue {
    Null,
    Bool(bool),
    Num(String),
    Str(String),
    Array(Vec<JsonValue>),
    Object(Vec<(String, JsonValue)>),
}

/// The data of a value.
pub closed spec fn json_data(v: JsonValue) -> JsonData
    decreases v,
{
    match v {
        JsonValue::Null => JsonData::Null,
        JsonValue::Bool(b) => JsonData::Bool(b),
        JsonValue::Num(n) => JsonData::Num(n@),
        JsonValue::Str(s) => JsonData::Str(s@),
        JsonValue::Array(a) => JsonData::Array(json_items(a@)),
        JsonValue::Object(o) => JsonData::Object(json_fields(o@)),
    }
}

/// The data of array items.
pub closed spec fn json_items(s: Seq<JsonValue>) -> Seq<JsonData>
    decreases s,
{
    if s.len() == 0 {
        Seq::empty()
    } else {
        json_items(s.subrange(0, s.len() - 1)).push(json_data(s[s.len() - 1]))
    }
}

/// The data of object fields.
pub closed spec fn json_fields(s: Seq<(String, JsonValue)>) -> Seq<(Seq<char>, JsonData)>
    decreases s,
{
    if s.len() == 0 {
        Seq::empty()
    } else {
        json_fields(s.subrange(0, s.len() - 1)).push((s[s.len() - 1].0@, json_data(s[s.len() - 1].1)))
    }
}

proof fn lemma_json_items(s: Seq<JsonValue>)
    ensures
        json_items(s).len() == s.len(),
        forall|i: int| 0 <= i < s.len() ==> #[trigger] json_items(s)[i] == json_data(s[i]),
    decreases s.len(),
{
    if s.len() > 0 {
        lemma_json_items(s.subrange(0, s.len() - 1));
    }
}

proof fn lemma_json_fields(s: Seq<(String, JsonValue)>)
    ensures
        json_fields(s).len() == s.len(),
        forall|i: int| 0 <= i < s.len() ==> #[trigger] json_fields(s)[i] == (s[i].0@, json_data(s[i].1)),
    decreases s.len(),
{
    if s.len() > 0 {
        lemma_json_fields(s.subrange(0, s.len() - 1));
    }
}

/// The value of the first field named `key`.
pub open spec fn field_of(fields: Seq<(Seq<char>, JsonData)>, key: Seq<char>) -> Option<JsonData>
    decreases fields.len(),
{
    if fields.len() == 0 {
        None
    } else if fields[0].0 == key {
        Some(fields[0].1)
    } else {
        field_of(fields.drop_first(), key)
    }
}

/// The value under `key` of an object (`None` for anything else).
pub open spec fn json_field(d: JsonData, key: Seq<char>) -> Option<JsonData> {
    match d {
        JsonData::Object(f) => field_of(f, key),
        _ => None,
    }
}

/// The string under `key` of an object.
pub open spec fn json_str_field(d: JsonData, key: Seq<char>) -> Option<Seq<char>> {
    match json_field(d, key) {
        Some(JsonData::Str(s)) => Some(s),
        _ => None,
    }
}

impl JsonValue {
    /// The data of this value.
    pub open spec fn data(self) -> JsonData {
        json_data(self)
    }

    /// A copy with the same data.
    pub fn deep_clone(&self) -> (r: JsonValue)
        ensures
            r.data() == self.data(),
        decreases self,
    {
        proof { reveal(json_data); }
        match self {
            JsonValue::Null => JsonValue::Null,
            JsonValue::Bool(b) => JsonValue::Bool(*b),
            JsonValue::Num(n) => JsonValue::Num(n.clone()),
            JsonValue::Str(s) => JsonValue::Str(s.clone()),
            JsonValue::Array(a) => {
                let mut out: Vec<JsonValue> = Vec::new();
                let mut i: usize = 0;
                proof { lemma_json_items(a@); }
                while i < a.len()
                    invariant
                        *self == JsonValue::Array(*a),
                        i <= a@.len(),
                        out@.len() == i,
                        forall|j: int| 0 <= j < i ==> #[trigger] out@[j].data() == a@[j].data(),
                    decreases a@.len() - i,
                {
                    proof {
                        vstd::std_specs::vec::axiom_vec_index_decreases(*a, i as int);
                        assert(decreases_to!(*self => self->Array_0));
                    }
                    let c = a[i].deep_clone();
                    out.push(c);
                    i = i + 1;
                }
                proof {
                    lemma_json_items(out@);
                    lemma_json_items(a@);
                    assert forall|j: int| 0 <= j < a@.len() implies json_items(out@)[j] == json_items(a@)[j] by {
                        assert(out@[j].data() == a@[j].data());
                    }
                }
                assert(json_items(out@) =~= json_items(a@));
                JsonValue::Array(out)
            },
            JsonValue::Object(o) => {
                let mut out: Vec<(String, JsonValue)> = Vec::new();
                let mut i: usize = 0;
                proof { lemma_json_fields(o@); }
                while i < o.len()
                    invariant
                        *self == JsonValue::Object(*o),
                        i <= o@.len(),
                        out@.len() == i,
                        forall|j: int| 0 <= j < i ==> #[trigger] out@[j].0@ == o@[j].0@ && out@[j].1.data() == o@[j].1.data(),
                    decreases o@.len() - i,
                {
                    proof {
                        vstd::std_specs::vec::axiom_vec_index_decreases(*o, i as int);
                        assert(decreases_to!(*self => self->Object_0));
                    }
                    let k = o[i].0.clone();
                    let c = o[i].1.deep_clone();
                    out.push((k, c));
                    i = i + 1;
                }
                proof {
                    lemma_json_fields(out@);
                    lemma_json_fields(o@);
                }
                assert(json_fields(out@) =~= json_fields(o@));
                JsonValue::Object(out)
            },
        }
    }

    /// The string, if this is a string.
    pub fn as_str(&self) -> (r: Option<&str>)
        ensures
            match r {
                Some(s) => self.data() == JsonData::Str(s@),
                None => !(self.data() is Str),
            },
    {
        proof { reveal(json_data); }
        match self {
            JsonValue::Str(s) => Some(s.as_str()),
            _ => None,
        }
    }

    /// The items, if this is an array.
    pub fn as_array(&self) -> (r: Option<&Vec<JsonValue>>)
        ensures
            match r {
                Some(a) => self.data() is Array && self.data()->Array_0.len() == a@.len() && forall|i: int|
                    0 <= i < a@.len() ==> #[trigger] self.data()->Array_0[i] == a@[i].data(),
                None => !(self.data() is Array),
            },
    {
        proof { reveal(json_data); }
        match self {
            JsonValue::Array(a) => {
                proof { lemma_json_items(a@); }
                Some(a)
            },
            _ => None,
        }
    }

    /// The value under `key`, if this is an object that has one.
    pub fn get(&self, key: &str) -> (r: Option<&JsonValue>)
        ensures
            match r {
                Some(v) => json_field(self.data(), key@) == Some(v.data()),
                None => json_field(self.data(), key@) is None,
            },
    {
        proof { reveal(json_data); }
        match self {
            JsonValue::Object(o) => {
                proof { lemma_json_fields(o@); }
                let ghost f = json_fields(o@);
                let mut i: usize = 0;
                assert(f.skip(0) =~= f);
                assert(self.data() == JsonData::Object(f));
                while i < o.len()
                    invariant
                        self.data() == JsonData::Object(f),
                        f == json_fields(o@),
                        f.len() == o@.len(),
                        forall|j: int| 0 <= j < o@.len() ==> #[trigger] f[j] == (o@[j].0@, json_data(o@[j].1)),
                        i <= o@.len(),
                        field_of(f, key@) == field_of(f.skip(i as int), key@),
                    decreases o@.len() - i,
                {
                    assert(f.skip(i as int).drop_first() =~= f.skip(i + 1));
                    assert(f.skip(i as int)[0] == f[i as int]);
                    if str_eq(o[i].0.as_str(), key) {
                        return Some(&o[i].1);
                    }
                    i = i + 1;
                }
                None
            },
            _ => None,
        }
    }
}

/// The `serde_json` crate's value type.
#[verifier::external_type_specification]
#[verifier::external_body]
pub struct ExJsonValue(serde_json::Value);

/// What `serde_json` reads from a text, as data; `None` when it rejects the text.
pub uninterp spec fn json_document(text: Seq<char>) -> Option<JsonData>;

/// The message `serde_json` gives for a text it rejects.
pub uninterp spec fn json_error(text: Seq<char>) -> Seq<char>;

/// Converts a value of `serde_json`, variant by variant.
#[verifier::external_body]
fn from_serde(v: serde_json::Value) -> JsonValue {
    match v {
        serde_json::Value::Null => JsonValue::Null,
        serde_json::Value::Bool(b) => JsonValue::Bool(b),
        serde_json::Value::Number(n) => JsonValue::Num(n.to_string()),
        serde_json::Value::String(s) => JsonValue::Str(s),
        serde_json::Value::Array(a) => JsonValue::Array(a.into_iter().map(from_serde).collect()),
        serde_json::Value::Object(o) => JsonValue::Object(o.into_iter().map(|(k, x)| (k, from_serde(x))).collect()),
    }
}

/// Parses a JSON text with `serde_json::from_str::<serde_json::Value>`.
///
/// Trusted: the result is the value `serde_json` reads, named `json_document` and not written
/// out. On rejection the error is the crate's message, named `json_error`.
#[verifier::external_body]
pub fn parse_json(text: &str) -> (r: Result<JsonValue, String>)
    ensures
        match r {
            Ok(v) => json_document(text@) == Some(v.data()),
            Err(e) => json_document(text@) is None && e@ == json_error(text@),
        },
{
    match serde_json::from_str::<serde_json::Value>(text) {
        Ok(v) => Ok(from_serde(v)),
        Err(e) => Err(e.to_string()),
    }
}

} // verus!
