//! JSON documents as plain library values.
//!
//! The sidecar and configuration readers work on `Json`, whose content is
//! fully visible to the verifier. Parsing itself is serde_json's, behind
//! one trusted function whose result is named: what a given document text
//! parses to is fixed by `json_doc_of`, so the readers' contracts can say
//! exactly which documents they accept and what they decode to.

use crate::error::{Error, ErrorKind};
use crate::text::str_eq;
use vstd::prelude::*;

verus! {

broadcast use vstd::std_specs::vec::group_vec_axioms;

/// A parsed JSON value. A number carries its unsigned 64-bit content when
/// it is representable as one (all the pipeline's numeric fields are),
/// nothing otherwise.
pub enum Json {
    Null,
    Bool(bool),
    Num(Option<u64>),
    Str(String),
    Arr(Vec<Json>),
    Obj(Vec<(String, Json)>),
}

#[verifier::ext_equal]
pub ghost enum JsonV {
    Null,
    Bool(bool),
    Num(Option<u64>),
    Str(Seq<char>),
    Arr(Seq<JsonV>),
    Obj(Seq<(Seq<char>, JsonV)>),
}

/// The mathematical content of a parsed value.
pub open spec fn json_view(j: Json) -> JsonV
    decreases j,
{
    match j {
        Json::Null => JsonV::Null,
        Json::Bool(b) => JsonV::Bool(b),
        Json::Num(n) => JsonV::Num(n),
        Json::Str(s) => JsonV::Str(s@),
        Json::Arr(a) => JsonV::Arr(
            Seq::new(
                a.len() as nat,
                |i: int|
                    if 0 <= i < a.len() {
                        json_view(a[i])
                    } else {
                        JsonV::Null
                    },
            ),
        ),
        Json::Obj(o) => JsonV::Obj(
            Seq::new(
                o.len() as nat,
                |i: int|
                    if 0 <= i < o.len() {
                        (o[i].0@, json_view(o[i].1))
                    } else {
                        (Seq::empty(), JsonV::Null)
                    },
            ),
        ),
    }
}

impl View for Json {
    type V = JsonV;

    open spec fn view(&self) -> JsonV {
        json_view(*self)
    }
}

impl DeepView for Json {
    type V = JsonV;

    open spec fn deep_view(&self) -> JsonV {
        json_view(*self)
    }
}

#[verifier::external_type_specification]
#[verifier::external_body]
pub struct ExJsonValue(serde_json::Value);

/// What a JSON document parses to: serde_json's parse of the text, handed
/// over variant by variant, or nothing for malformed text. A function of
/// the text alone.
pub uninterp spec fn json_doc_of(s: Seq<char>) -> Option<JsonV>;

/// Relies on `serde_json::from_str::<Value>` (serde_json): parsing is a
/// deterministic function of the document text and fails exactly on
/// malformed documents.
#[verifier::external_body]
pub(crate) fn parse_json(s: &str) -> (r: Option<Json>)
    ensures
        r.deep_view() == json_doc_of(s@),
{
    serde_json::from_str::<serde_json::Value>(s).ok().map(json_of_value)
}

/// Relies on the variants of `serde_json::Value`: each arm moves the
/// parsed fields into the library's value; a number keeps its unsigned
/// 64-bit content when `Number::as_u64` gives one.
#[verifier::external_body]
fn json_of_value(v: serde_json::Value) -> Json {
    match v {
        serde_json::Value::Null => Json::Null,
        serde_json::Value::Bool(b) => Json::Bool(b),
        serde_json::Value::Number(n) => Json::Num(n.as_u64()),
        serde_json::Value::String(s) => Json::Str(s),
        serde_json::Value::Array(a) => Json::Arr(a.into_iter().map(json_of_value).collect()),
        serde_json::Value::Object(o) => Json::Obj(
            o.into_iter().map(|(k, x)| (k, json_of_value(x))).collect(),
        ),
    }
}

/// The value under `key` among an object's fields; the first binding wins
/// (a parsed object holds each key once).
pub open spec fn obj_lookup(fields: Seq<(Seq<char>, JsonV)>, key: Seq<char>) -> Option<JsonV>
    decreases fields.len(),
{
    if fields.len() == 0 {
        None
    } else if fields[0].0 == key {
        Some(fields[0].1)
    } else {
        obj_lookup(fields.drop_first(), key)
    }
}

/// The field of an object under `key`; nothing when the value is not an
/// object or the key is absent.
pub open spec fn json_lookup(j: JsonV, key: Seq<char>) -> Option<JsonV> {
    match j {
        JsonV::Obj(fields) => obj_lookup(fields, key),
        _ => None,
    }
}

impl Json {
    /// The field under `key`, when this value is an object holding it.
    pub fn get<'a>(&'a self, key: &str) -> (r: Option<&'a Json>)
        ensures
            match r {
                Some(v) => json_lookup(self@, key@) == Some(v.deep_view()),
                None => json_lookup(self@, key@) is None,
            },
    {
        match self {
            Json::Obj(fields) => {
                let ghost fv = self@->Obj_0;
                let n = fields.len();
                let mut i: usize = 0;
                proof {
                    assert(fv.skip(0) =~= fv);
                }
                while i < n
                    invariant
                        n == fields@.len(),
                        0 <= i <= n,
                        self@ matches JsonV::Obj(f) && f == fv,
                        fv.len() == n,
                        obj_lookup(fv, key@) == obj_lookup(fv.skip(i as int), key@),
                        forall|j: int| 0 <= j < n ==> #[trigger] fv[j] == (fields@[j].0@, json_view(fields@[j].1)),
                    decreases n - i,
                {
                    proof {
                        assert(fv.skip(i as int)[0] == fv[i as int]);
                        assert(fv.skip(i as int).drop_first() =~= fv.skip(i + 1));
                    }
                    if str_eq(fields[i].0.as_str(), key) {
                        return Some(&fields[i].1);
                    }
                    i = i + 1;
                }
                None
            },
            _ => None,
        }
    }

    /// The character content, when this value is a string.
    pub fn as_str<'a>(&'a self) -> (r: Option<&'a str>)
        ensures
            match r {
                Some(s) => self@ == JsonV::Str(s@),
                None => !(self@ is Str),
            },
    {
        match self {
            Json::Str(s) => Some(s.as_str()),
            _ => None,
        }
    }

    /// The unsigned 64-bit content, when this value is a number holding
    /// one.
    pub fn as_u64(&self) -> (r: Option<u64>)
        ensures
            match r {
                Some(n) => self@ == JsonV::Num(Some(n)),
                None => forall|n: u64| self@ != JsonV::Num(Some(n)),
            },
    {
        match self {
            Json::Num(n) => *n,
            _ => None,
        }
    }

    /// The elements, when this value is an array.
    pub fn as_array<'a>(&'a self) -> (r: Option<&'a Vec<Json>>)
        ensures
            match r {
                Some(a) => self@ == JsonV::Arr(a.deep_view()),
                None => !(self@ is Arr),
            },
    {
        match self {
            Json::Arr(a) => {
                proof {
                    assert(self@->Arr_0 =~= a.deep_view());
                }
                Some(a)
            },
            _ => None,
        }
    }

    /// Whether this value is JSON null.
    pub fn is_null(&self) -> (r: bool)
        ensures
            r == (self@ is Null),
    {
        match self {
            Json::Null => true,
            _ => false,
        }
    }
}

/// The string field under `key`: nothing when absent or not a string.
pub open spec fn string_of(j: JsonV, key: Seq<char>) -> Option<Seq<char>> {
    match json_lookup(j, key) {
        Some(JsonV::Str(s)) => Some(s),
        _ => None,
    }
}

/// The optional string field under `key`: absent and null both decode to
/// an empty value; any other non-string content is a decode failure
/// (nothing).
pub open spec fn opt_string_of(j: JsonV, key: Seq<char>) -> Option<Option<Seq<char>>> {
    match json_lookup(j, key) {
        None => Some(None),
        Some(JsonV::Null) => Some(None),
        Some(JsonV::Str(s)) => Some(Some(s)),
        Some(_) => None,
    }
}

/// The unsigned number field under `key`: nothing when absent, not a
/// number, or not representable as a 64-bit unsigned value.
pub open spec fn u64_of(j: JsonV, key: Seq<char>) -> Option<u64> {
    match json_lookup(j, key) {
        Some(JsonV::Num(Some(n))) => Some(n),
        _ => None,
    }
}

/// Reads a required string field, matching `string_of`.
pub(crate) fn string_field(doc: &Json, key: &str) -> (r: Result<String, Error>)
    ensures
        r is Ok <==> string_of(doc@, key@) is Some,
        r matches Ok(s) ==> Some(s@) == string_of(doc@, key@),
        r matches Err(e) ==> e.kind == ErrorKind::Decode,
{
    match doc.get(key) {
        Some(v) => match v.as_str() {
            Some(s) => Ok(crate::text::copy_str(s)),
            None => Err(Error::new(ErrorKind::Decode, "field is not a string")),
        },
        None => Err(Error::new(ErrorKind::Decode, "missing field")),
    }
}

/// Reads an optional string field, matching `opt_string_of`.
pub(crate) fn opt_string_field(doc: &Json, key: &str) -> (r: Result<Option<String>, Error>)
    ensures
        r is Ok <==> opt_string_of(doc@, key@) is Some,
        r matches Ok(v) ==> Some(v.deep_view()) == opt_string_of(doc@, key@),
        r matches Err(e) ==> e.kind == ErrorKind::Decode,
{
    match doc.get(key) {
        None => Ok(None),
        Some(v) => {
            if v.is_null() {
                Ok(None)
            } else {
                match v.as_str() {
                    Some(s) => Ok(Some(crate::text::copy_str(s))),
                    None => Err(Error::new(ErrorKind::Decode, "field is not a string")),
                }
            }
        },
    }
}

/// Reads a required unsigned number field, matching `u64_of`.
pub(crate) fn u64_field(doc: &Json, key: &str) -> (r: Result<u64, Error>)
    ensures
        r is Ok <==> u64_of(doc@, key@) is Some,
        r matches Ok(n) ==> Some(n) == u64_of(doc@, key@),
        r matches Err(e) ==> e.kind == ErrorKind::Decode,
{
    match doc.get(key) {
        Some(v) => match v.as_u64() {
            Some(n) => Ok(n),
            None => Err(Error::new(ErrorKind::Decode, "field is not an unsigned number")),
        },
        None => Err(Error::new(ErrorKind::Decode, "missing field")),
    }
}

} // verus!
