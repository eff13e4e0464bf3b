//! JSON values, as far as the library reads them.
use vstd::prelude::*;

use crate::text::same;

verus! {

/// A JSON value.
#[derive(Debug, PartialEq, Eq)]
pub struct Json {
    /// The value in compact notation.
    pub text: String,
    pub kind: JsonKind,
}

/// What a JSON value is.
#[derive(Debug, PartialEq, Eq)]
pub enum JsonKind {
    Null,
    Bool(bool),
    /// A number, with its value if that is an unsigned integer.
    Number(Option<u64>),
    Text(String),
    Array(Vec<Json>),
    /// An object; no name occurs twice.
    Object(Vec<(String, Json)>),
}

/// The field of an object with the given name.
pub open spec fn lookup<A>(fields: Seq<(String, A)>, key: Seq<char>) -> Option<A>
    decreases fields.len(),
{
    if fields.len() == 0 {
        None
    } else if fields[0].0@ == key {
        Some(fields[0].1)
    } else {
        lookup(fields.skip(1), key)
    }
}

/// The field of an object with the given name.
pub fn find<'a, A>(fields: &'a Vec<(String, A)>, key: &str) -> (r: Option<&'a A>)
    ensures
        match r {
            Some(v) => lookup(fields@, key@) == Some(*v),
            None => lookup(fields@, key@) is None,
        },
{
    assert(fields@.skip(0) =~= fields@);
    for i in 0..fields.len()
        invariant
            lookup(fields@, key@) == lookup(fields@.skip(i as int), key@),
    {
        assert(fields@.skip(i as int).skip(1) =~= fields@.skip(i + 1));
        if same(fields[i].0.as_str(), key) {
            return Some(&fields[i].1);
        }
    }
    None
}

/// The text of a field that is a string.
pub open spec fn text_field_spec(fields: Seq<(String, Json)>, key: Seq<char>) -> Option<Seq<char>> {
    match lookup(fields, key) {
        Some(v) => match v.kind {
            JsonKind::Text(s) => Some(s@),
            _ => None,
        },
        None => None,
    }
}

/// The text of a field that is a string.
pub fn text_field<'a>(fields: &'a Vec<(String, Json)>, key: &str) -> (r: Option<&'a str>)
    ensures
        r.deep_view() == text_field_spec(fields@, key@),
{
    match find(fields, key) {
        Some(v) => match &v.kind {
            JsonKind::Text(s) => Some(s.as_str()),
            _ => None,
        },
        None => None,
    }
}

/// The two notations of zero as a floating-point number.
pub open spec fn is_float_zero(s: Seq<char>) -> bool {
    s == "0.0"@ || s == "-0.0"@
}

/// Two values are equal: numbers by value, where distinct notations denote
/// distinct numbers but for a zero's sign, objects field by field whatever the
/// order, and all else by what it holds.
pub open spec fn value_eq(a: Json, b: Json) -> bool
    decreases a,
{
    match (a.kind, b.kind) {
        (JsonKind::Null, JsonKind::Null) => true,
        (JsonKind::Bool(x), JsonKind::Bool(y)) => x == y,
        (JsonKind::Number(_), JsonKind::Number(_)) => a.text@ == b.text@ || (is_float_zero(a.text@)
            && is_float_zero(b.text@)),
        (JsonKind::Text(x), JsonKind::Text(y)) => x@ == y@,
        (JsonKind::Array(x), JsonKind::Array(y)) => x@.len() == y@.len() && (forall|i: int|
            0 <= i < x@.len() ==> value_eq(#[trigger] x@[i], y@[i])),
        (JsonKind::Object(x), JsonKind::Object(y)) => x@.len() == y@.len() && (forall|i: int|
            #![trigger x@[i]]
            0 <= i < x@.len() ==> match lookup(y@, x@[i].0@) {
                Some(v) => value_eq(x@[i].1, v),
                None => false,
            }),
        _ => false,
    }
}

/// Whether two values are equal.
pub fn same_value(a: &Json, b: &Json) -> (r: bool)
    ensures
        r == value_eq(*a, *b),
    decreases a,
{
    match (&a.kind, &b.kind) {
        (JsonKind::Null, JsonKind::Null) => true,
        (JsonKind::Bool(x), JsonKind::Bool(y)) => *x == *y,
        (JsonKind::Number(_), JsonKind::Number(_)) => {
            let s = a.text.as_str();
            let t = b.text.as_str();
            same(s, t) || ((same(s, "0.0") || same(s, "-0.0")) && (same(t, "0.0") || same(
                t,
                "-0.0",
            )))
        },
        (JsonKind::Text(x), JsonKind::Text(y)) => same(x.as_str(), y.as_str()),
        (JsonKind::Array(x), JsonKind::Array(y)) => {
            if x.len() != y.len() {
                return false;
            }
            for i in 0..x.len()
                invariant
                    a.kind == JsonKind::Array(*x),
                    b.kind == JsonKind::Array(*y),
                    x@.len() == y@.len(),
                    forall|j: int| 0 <= j < i ==> value_eq(#[trigger] x@[j], y@[j]),
            {
                assert(decreases_to!(a.kind->Array_0 => x@[i as int]));
                assert(decreases_to!(*a => a.kind->Array_0));
                if !same_value(&x[i], &y[i]) {
                    return false;
                }
            }
            true
        },
        (JsonKind::Object(x), JsonKind::Object(y)) => {
            if x.len() != y.len() {
                return false;
            }
            for i in 0..x.len()
                invariant
                    a.kind == JsonKind::Object(*x),
                    b.kind == JsonKind::Object(*y),
                    x@.len() == y@.len(),
                    forall|j: int|
                        #![trigger x@[j]]
                        0 <= j < i ==> match lookup(y@, x@[j].0@) {
                            Some(v) => value_eq(x@[j].1, v),
                            None => false,
                        },
            {
                assert(decreases_to!(a.kind->Object_0 => x@[i as int].1));
                assert(decreases_to!(*a => a.kind->Object_0));
                match find(y, x[i].0.as_str()) {
                    Some(v) => {
                        if !same_value(&x[i].1, v) {
                            return false;
                        }
                    },
                    None => {
                        return false;
                    },
                }
            }
            true
        },
        _ => false,
    }
}

} // verus!
