//! The JSON data model that renderers read: a record is an object of
//! named fields, in the order the parser delivered them.
//!
//! A number keeps the exact text it prints as, and an order key: an
//! integer that orders numbers as their numeric values are ordered (equal
//! values share a key). An array or object keeps, beside its items, the
//! compact JSON text it prints as.
use vstd::prelude::*;
use crate::text::{owned, str_eq};

verus! {

pub struct JsonNumber {
    /// How the number prints (`1`, `1.5`, `-3`, `1e+30`).
    pub text: String,
    /// Orders numbers by value: `a.key < b.key` exactly when `a < b`.
    pub key: u64,
}

/// The order key of a floating-point number from its IEEE 754 bits: the
/// bits of a negative number inverted, those of a positive one with the
/// sign bit set, so that keys compare as unsigned integers in the order of
/// the numbers (with `-0.0` given as `0.0`, and NaN aside).
pub fn order_key(bits: u64) -> (r: u64)
    ensures
        r == if bits >> 63u64 == 1 {
            !bits
        } else {
            bits | 0x8000_0000_0000_0000u64
        },
{
    if bits >> 63u64 == 1 {
        !bits
    } else {
        bits | 0x8000_0000_0000_0000u64
    }
}

pub struct Field {
    pub key: String,
    pub value: Json,
}

pub enum Json {
    Null,
    Bool(bool),
    Number(JsonNumber),
    Str(String),
    Array { items: Vec<Json>, text: String },
    Object { fields: Vec<Field>, text: String },
}

/// The value stored under `key` in `fields`: the first field with that key.
pub open spec fn fields_get(fields: Seq<Field>, key: Seq<char>) -> Option<Json>
    decreases fields.len(),
{
    if fields.len() == 0 {
        None
    } else if fields[0].key@ == key {
        Some(fields[0].value)
    } else {
        fields_get(fields.drop_first(), key)
    }
}

/// `Value::get(key)`: a field of an object; nothing for any other value.
pub open spec fn json_get(v: Json, key: Seq<char>) -> Option<Json> {
    match v {
        Json::Object { fields, .. } => fields_get(fields@, key),
        _ => None,
    }
}

pub open spec fn is_object(v: Json) -> bool {
    v is Object
}

pub open spec fn is_number(v: Json) -> bool {
    v is Number
}

pub open spec fn is_string(v: Json) -> bool {
    v is Str
}

/// The field names of an object, in order; nothing for other values.
pub open spec fn keys_of(v: Json) -> Seq<Seq<char>> {
    match v {
        Json::Object { fields, .. } => Seq::new(fields@.len(), |i: int| fields@[i].key@),
        _ => Seq::empty(),
    }
}

/// Display text of a value inside a rendered cell: a string's own
/// characters (no quotes), nothing for `null`, and the JSON text of
/// anything else.
pub open spec fn value_text(v: Json) -> Seq<char> {
    match v {
        Json::Null => Seq::empty(),
        Json::Bool(b) => if b { "true"@ } else { "false"@ },
        Json::Number(n) => n.text@,
        Json::Str(s) => s@,
        Json::Array { text, .. } => text@,
        Json::Object { text, .. } => text@,
    }
}

/// Display text of a record's field; empty when the field is missing.
pub open spec fn cell_text(row: Json, field: Seq<char>) -> Seq<char> {
    match json_get(row, field) {
        Some(v) => value_text(v),
        None => Seq::empty(),
    }
}

proof fn lemma_fields_get_skip(fields: Seq<Field>, key: Seq<char>, i: int)
    requires
        0 <= i <= fields.len(),
        forall|j: int| 0 <= j < i ==> fields[j].key@ != key,
    ensures
        fields_get(fields, key) == fields_get(fields.skip(i), key),
    decreases i,
{
    if i > 0 {
        lemma_fields_get_skip(fields.drop_first(), key, i - 1);
        assert(fields.drop_first().skip(i - 1) =~= fields.skip(i));
    } else {
        assert(fields.skip(0) =~= fields);
    }
}

impl Json {
    /// Looks a field up in an object.
    pub fn get(&self, key: &str) -> (r: Option<&Json>)
        ensures
            r matches Some(v) ==> json_get(*self, key@) == Some(*v),
            r is None ==> json_get(*self, key@) is None,
    {
        match self {
            Json::Object { fields, .. } => {
                let mut i: usize = 0;
                while i < fields.len()
                    invariant
                        i <= fields.len(),
                        json_get(*self, key@) == fields_get(fields@, key@),
                        forall|j: int| 0 <= j < i ==> fields@[j].key@ != key@,
                    decreases fields.len() - i,
                {
                    if str_eq(fields[i].key.as_str(), key) {
                        proof {
                            lemma_fields_get_skip(fields@, key@, i as int);
                            let sk = fields@.skip(i as int);
                            assert(sk.len() > 0);
                            assert(sk[0] == fields@[i as int]);
                            assert(sk[0].key@ == key@);
                            assert(fields_get(sk, key@) == Some(sk[0].value));
                        }
                        return Some(&fields[i].value);
                    }
                    i = i + 1;
                }
                proof {
                    lemma_fields_get_skip(fields@, key@, i as int);
                }
                None
            },
            _ => None,
        }
    }

    pub fn is_object(&self) -> (r: bool)
        ensures
            r == is_object(*self),
    {
        matches!(self, Json::Object { .. })
    }

    pub fn is_number(&self) -> (r: bool)
        ensures
            r == is_number(*self),
    {
        matches!(self, Json::Number(_))
    }

    pub fn is_string(&self) -> (r: bool)
        ensures
            r == is_string(*self),
    {
        matches!(self, Json::Str(_))
    }

    /// The field names of an object, in order (`Map::keys`).
    pub fn keys(&self) -> (r: Vec<String>)
        ensures
            r@.len() == keys_of(*self).len(),
            forall|i: int| 0 <= i < r@.len() ==> #[trigger] r@[i]@ == keys_of(*self)[i],
    {
        let mut r: Vec<String> = Vec::new();
        match self {
            Json::Object { fields, .. } => {
                let mut i: usize = 0;
                while i < fields.len()
                    invariant
                        i <= fields.len(),
                        r@.len() == i,
                        forall|j: int| 0 <= j < i ==> #[trigger] r@[j]@ == fields@[j].key@,
                    decreases fields.len() - i,
                {
                    r.push(owned(fields[i].key.as_str()));
                    i = i + 1;
                }
            },
            _ => {},
        }
        r
    }
}

/// Display text of a value (see `value_text`).
pub fn value_text_of(v: &Json) -> (r: String)
    ensures
        r@ == value_text(*v),
{
    match v {
        Json::Null => String::new(),
        Json::Bool(b) => {
            if *b {
                owned("true")
            } else {
                owned("false")
            }
        },
        Json::Number(n) => owned(n.text.as_str()),
        Json::Str(s) => owned(s.as_str()),
        Json::Array { text, .. } => owned(text.as_str()),
        Json::Object { text, .. } => owned(text.as_str()),
    }
}

/// Display text of a record's field (see `cell_text`).
pub fn cell_text_of(row: &Json, field: &str) -> (r: String)
    ensures
        r@ == cell_text(*row, field@),
{
    match row.get(field) {
        Some(v) => value_text_of(v),
        None => String::new(),
    }
}

} // verus!
