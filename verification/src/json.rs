//! JSON values and what they stand for.

use vstd::prelude::*;
use crate::ordmap::OrdMap;

verus! {

/// A number as JSON carries it.
#[derive(Debug, PartialEq, Eq)]
pub enum Number {
    /// An integer in the signed 64-bit range.
    Int(i64),
    /// An integer above the signed and within the unsigned 64-bit range.
    Big(u64),
    /// Any other number, as its shortest text.
    Real(String),
}

/// A JSON value.
#[derive(Debug, PartialEq, Eq)]
pub enum Datum {
    Null,
    Bool(bool),
    Number(Number),
    String(String),
    Array(Vec<Datum>),
    Object(OrdMap<String, Datum>),
}

/// A number in specifications.
pub enum Num {
    Int(i64),
    Big(u64),
    Real(Seq<char>),
}

/// A JSON value in specifications.
pub enum Json {
    Null,
    Bool(bool),
    Number(Num),
    String(Seq<char>),
    Array(Seq<Json>),
    Object(Seq<(Seq<char>, Json)>),
}

impl DeepView for Number {
    type V = Num;

    open spec fn deep_view(&self) -> Num {
        match *self {
            Number::Int(n) => Num::Int(n),
            Number::Big(n) => Num::Big(n),
            Number::Real(text) => Num::Real(text@),
        }
    }
}

/// What a value stands for.
pub open spec fn json(value: Datum) -> Json
    decreases value,
{
    match value {
        Datum::Null => Json::Null,
        Datum::Bool(b) => Json::Bool(b),
        Datum::Number(n) => Json::Number(n.deep_view()),
        Datum::String(s) => Json::String(s@),
        Datum::Array(items) => Json::Array(
            Seq::new(
                items@.len(),
                |i: int|
                    if 0 <= i < items@.len() {
                        json(items@[i])
                    } else {
                        Json::Null
                    },
            ),
        ),
        Datum::Object(map) => Json::Object(
            Seq::new(
                map.entries@.len(),
                |i: int|
                    if 0 <= i < map.entries@.len() {
                        (map.entries@[i].0@, json(map.entries@[i].1))
                    } else {
                        (Seq::empty(), Json::Null)
                    },
            ),
        ),
    }
}

impl View for Datum {
    type V = Json;

    open spec fn view(&self) -> Json {
        json(*self)
    }
}

impl DeepView for Datum {
    type V = Json;

    open spec fn deep_view(&self) -> Json {
        json(*self)
    }
}

/// An array stands for the deep view of its list.
pub broadcast proof fn array_view(items: Vec<Datum>)
    ensures
        #[trigger] json(Datum::Array(items)) == Json::Array(items.deep_view()),
{
    assert(json(Datum::Array(items))->Array_0 =~= items.deep_view());
}

/// An object stands for the view of its map.
pub broadcast proof fn object_view(map: OrdMap<String, Datum>)
    ensures
        #[trigger] json(Datum::Object(map)) == Json::Object(map@),
{
    assert(json(Datum::Object(map))->Object_0 =~= map@);
}

pub broadcast group group_value_views {
    array_view,
    object_view,
}

} // verus!
