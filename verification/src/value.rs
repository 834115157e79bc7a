use vstd::prelude::*;

verus! {

/// A parsed JSON document: a finite tree of values.
///
/// Numbers keep the textual form they were parsed with, so rendering
/// passes the literal through unchanged. Object members keep their
/// original order, which is significant for rendering.
pub enum Json {
    Null,
    Bool(bool),
    Number(String),
    Str(String),
    Array(Vec<Json>),
    Object(Vec<Member>),
}

/// One `key: value` entry of a JSON object.
pub struct Member {
    pub key: String,
    pub value: Json,
}

/// True of arrays and objects, the values that open a nested layout.
pub open spec fn is_container(v: Json) -> bool {
    match v {
        Json::Array(_) => true,
        Json::Object(_) => true,
        _ => false,
    }
}

/// Nesting height of a value: 1 for scalars, one more than the
/// deepest child for arrays and objects.
pub open spec fn height_of(v: Json) -> nat
    decreases v, 0int,
{
    match v {
        Json::Array(a) => 1 + height_elems(a@, 0),
        Json::Object(ms) => 1 + height_members(ms@, 0),
        _ => 1,
    }
}

/// Largest height among `a[i..]`.
pub open spec fn height_elems(a: Seq<Json>, i: int) -> nat
    decreases a, a.len() - i,
{
    if i < 0 || i >= a.len() {
        0
    } else {
        let h = height_of(a[i]);
        let rest = height_elems(a, i + 1);
        if h > rest {
            h
        } else {
            rest
        }
    }
}

/// Largest height among the values of `ms[i..]`.
pub open spec fn height_members(ms: Seq<Member>, i: int) -> nat
    decreases ms, ms.len() - i,
{
    if i < 0 || i >= ms.len() {
        0
    } else {
        let h = height_of(ms[i].value);
        let rest = height_members(ms, i + 1);
        if h > rest {
            h
        } else {
            rest
        }
    }
}

/// A character that may stand in a JSON number literal: a digit, a
/// sign, the decimal point, or an exponent mark.
pub open spec fn number_char(c: char) -> bool {
    c == '-' || c == '+' || c == '.' || c == 'e' || c == 'E' || (48 <= c as u32 && c as u32
        <= 57)
}

/// Validity of a document's leaves: every number keeps a nonempty
/// literal made of number characters, at every depth.
pub open spec fn well_formed(v: Json) -> bool
    decreases v, 0int,
{
    match v {
        Json::Number(s) => s@.len() > 0 && forall|i: int|
            0 <= i < s@.len() ==> number_char(s@[i]),
        Json::Array(a) => well_formed_elems(a@, 0),
        Json::Object(ms) => well_formed_members(ms@, 0),
        _ => true,
    }
}

/// Validity of every element of `a[i..]`.
pub open spec fn well_formed_elems(a: Seq<Json>, i: int) -> bool
    decreases a, a.len() - i,
{
    if i < 0 || i >= a.len() {
        true
    } else {
        well_formed(a[i]) && well_formed_elems(a, i + 1)
    }
}

/// Validity of every member value of `ms[i..]`.
pub open spec fn well_formed_members(ms: Seq<Member>, i: int) -> bool
    decreases ms, ms.len() - i,
{
    if i < 0 || i >= ms.len() {
        true
    } else {
        well_formed(ms[i].value) && well_formed_members(ms, i + 1)
    }
}

/// Whether `v` is an array or an object, the values whose layout nests.
pub fn value_is_container(v: &Json) -> (r: bool)
    ensures
        r == is_container(*v),
{
    match v {
        Json::Array(_) => true,
        Json::Object(_) => true,
        _ => false,
    }
}

} // verus!
