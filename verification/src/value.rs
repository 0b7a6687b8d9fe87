//! Copying, reading and comparing JSON values, which are also the cells of rows and the nodes of
//! syntax trees.

use vstd::prelude::*;
pub use crate::json::{Number, Datum};
use crate::json::{group_value_views, json, Json, Num};
use crate::ordmap::{get, spot_from, spot_from_range, OrdMap};
use crate::replica::Replica;
use crate::text::{owned, same};

verus! {

broadcast use group_value_views;

impl Replica for Number {
    fn replica(&self) -> (result: Self) {
        match self {
            Number::Int(n) => Number::Int(*n),
            Number::Big(n) => Number::Big(*n),
            Number::Real(text) => Number::Real(text.clone()),
        }
    }
}

impl Datum {
    /// A copy of the value.
    pub fn copied(&self) -> (result: Datum)
        ensures
            result@ == self@,
        decreases self,
    {
        match self {
            Datum::Null => Datum::Null,
            Datum::Bool(b) => Datum::Bool(*b),
            Datum::Number(n) => Datum::Number(n.replica()),
            Datum::String(s) => Datum::String(s.clone()),
            Datum::Array(items) => {
                let mut copies: Vec<Datum> = Vec::new();
                let mut i: usize = 0;
                while i < items.len()
                    invariant
                        i <= items.len(),
                        self matches Datum::Array(list) && list == items,
                        copies.len() == i,
                        forall|j: int| 0 <= j < i ==> (#[trigger] copies[j])@ == items[j]@,
                    decreases items.len() - i,
                {
                    copies.push(items[i].copied());
                    i += 1;
                }
                assert(copies.deep_view() =~= items.deep_view());
                Datum::Array(copies)
            },
            Datum::Object(map) => {
                let mut entries: Vec<(String, Datum)> = Vec::new();
                let mut i: usize = 0;
                while i < map.entries.len()
                    invariant
                        i <= map.entries.len(),
                        self matches Datum::Object(object) && object == map,
                        entries.len() == i,
                        forall|j: int|
                            0 <= j < i ==> (#[trigger] entries[j]).0@ == map.entries[j].0@
                                && entries[j].1@ == map.entries[j].1@,
                    decreases map.entries.len() - i,
                {
                    entries.push((map.entries[i].0.clone(), map.entries[i].1.copied()));
                    i += 1;
                }
                let copy = OrdMap { entries };
                assert(copy@ =~= map@);
                Datum::Object(copy)
            },
        }
    }
}

impl Replica for Datum {
    fn replica(&self) -> (result: Self) {
        self.copied()
    }
}

impl Clone for Datum {
    fn clone(&self) -> (result: Self)
        ensures
            result@ == self@,
    {
        self.copied()
    }
}

// ---------------------------------------------------------------------------------------------
// Size
// ---------------------------------------------------------------------------------------------

/// How many nodes a value has, nulls left out.
pub open spec fn weight(value: Json) -> nat
    decreases value,
{
    match value {
        Json::Null => 0,
        Json::Array(items) => 1 + items_weight(items),
        Json::Object(entries) => 1 + entries_weight(entries),
        _ => 1,
    }
}

pub open spec fn items_weight(items: Seq<Json>) -> nat
    decreases items,
{
    if items.len() == 0 {
        0
    } else {
        weight(items.last()) + items_weight(items.drop_last())
    }
}

pub open spec fn entries_weight(entries: Seq<(Seq<char>, Json)>) -> nat
    decreases entries,
{
    if entries.len() == 0 {
        0
    } else {
        weight(entries.last().1) + entries_weight(entries.drop_last())
    }
}

proof fn items_weight_bound(items: Seq<Json>, i: int)
    requires
        0 <= i < items.len(),
    ensures
        weight(items[i]) <= items_weight(items),
    decreases items.len(),
{
    if i < items.len() - 1 {
        items_weight_bound(items.drop_last(), i);
    }
}

proof fn entries_weight_bound(entries: Seq<(Seq<char>, Json)>, i: int)
    requires
        0 <= i < entries.len(),
    ensures
        weight(entries[i].1) <= entries_weight(entries),
    decreases entries.len(),
{
    if i < entries.len() - 1 {
        entries_weight_bound(entries.drop_last(), i);
    }
}

// ---------------------------------------------------------------------------------------------
// Looking inside
// ---------------------------------------------------------------------------------------------

/// The value under `key` of an object; null where there is none.
pub open spec fn child(value: Json, key: Seq<char>) -> Json {
    match value {
        Json::Object(entries) => match get(entries, key) {
            Some(found) => found,
            None => Json::Null,
        },
        _ => Json::Null,
    }
}

/// The items of an array; none for any other value.
pub open spec fn items(value: Json) -> Seq<Json> {
    match value {
        Json::Array(list) => list,
        _ => Seq::empty(),
    }
}

/// The item at a position of an array; null where there is none.
pub open spec fn item(value: Json, i: int) -> Json {
    if 0 <= i < items(value).len() {
        items(value)[i]
    } else {
        Json::Null
    }
}

/// The variant of an enumeration: a bare text, or the only key of an object.
pub open spec fn tag(value: Json) -> Seq<char> {
    match value {
        Json::String(name) => name,
        Json::Object(entries) => if entries.len() == 1 {
            entries[0].0
        } else {
            Seq::empty()
        },
        _ => Seq::empty(),
    }
}

/// What a variant of an enumeration carries; null where it carries nothing.
pub open spec fn payload(value: Json) -> Json {
    match value {
        Json::Object(entries) => if entries.len() == 1 {
            entries[0].1
        } else {
            Json::Null
        },
        _ => Json::Null,
    }
}

/// The characters of a text; none for any other value.
pub open spec fn text(value: Json) -> Seq<char> {
    match value {
        Json::String(s) => s,
        _ => Seq::empty(),
    }
}

/// Whether the value is `true`.
pub open spec fn flag(value: Json) -> bool {
    value == Json::Bool(true)
}

/// The value as a signed 64-bit integer.
pub open spec fn as_int(value: Json) -> Option<i64> {
    match value {
        Json::Number(Num::Int(n)) => Some(n),
        _ => None,
    }
}

/// The value as an unsigned 64-bit integer.
pub open spec fn as_unsigned(value: Json) -> Option<u64> {
    match value {
        Json::Number(Num::Int(n)) => if n >= 0 {
            Some(n as u64)
        } else {
            None
        },
        Json::Number(Num::Big(n)) => Some(n),
        _ => None,
    }
}

/// The parts of a value that is not null weigh less than the value.
pub proof fn parts_are_lighter(value: Json)
    ensures
        value !is Null ==> forall|key: Seq<char>| weight(#[trigger] child(value, key)) < weight(value),
        value !is Null ==> weight(payload(value)) < weight(value),
        value !is Null ==> forall|i: int| weight(#[trigger] item(value, i)) < weight(value),
        forall|i: int| 0 <= i < items(value).len() ==> weight(#[trigger] items(value)[i]) < weight(value),
        forall|key: Seq<char>| weight(#[trigger] child(value, key)) <= weight(value),
        weight(payload(value)) <= weight(value),
        forall|i: int| weight(#[trigger] item(value, i)) <= weight(value),
{
    if let Json::Object(entries) = value {
        assert forall|key: Seq<char>| weight(#[trigger] child(value, key)) < weight(value) by {
            spot_from_range(entries, key, 0);
            let spot = spot_from(entries, key, 0);
            if spot < entries.len() {
                entries_weight_bound(entries, spot);
            }
        }
        if entries.len() == 1 {
            entries_weight_bound(entries, 0);
        }
    }
    if let Json::Array(list) = value {
        assert forall|i: int| 0 <= i < list.len() implies weight(#[trigger] list[i]) < weight(value) by {
            items_weight_bound(list, i);
        }
    }
}

impl Datum {
    /// The value under `key` of an object; null where there is none.
    pub fn child(&self, key: &str) -> (result: &Datum)
        ensures
            result@ == child(self@, key@),
    {
        match self {
            Datum::Object(map) => match map.find(key) {
                Some(found) => found,
                None => &Datum::Null,
            },
            _ => &Datum::Null,
        }
    }

    /// How many items an array has; none for any other value.
    pub fn count(&self) -> (result: usize)
        ensures
            result == items(self@).len(),
    {
        match self {
            Datum::Array(list) => list.len(),
            _ => 0,
        }
    }

    /// The item at a position of an array; null where there is none.
    pub fn item(&self, i: usize) -> (result: &Datum)
        ensures
            result@ == item(self@, i as int),
    {
        match self {
            Datum::Array(list) => if i < list.len() {
                assert(list.deep_view()[i as int] == list[i as int]@);
                &list[i]
            } else {
                &Datum::Null
            },
            _ => &Datum::Null,
        }
    }

    /// The variant of an enumeration: a bare text, or the only key of an object.
    pub fn tag(&self) -> (result: &str)
        ensures
            result@ == tag(self@),
    {
        proof {
            reveal_strlit("");
            assert(""@ =~= Seq::<char>::empty());
        }
        match self {
            Datum::String(name) => name.as_str(),
            Datum::Object(map) => if map.entries.len() == 1 {
                assert(map@[0].0 == map.entries[0].0@);
                map.entries[0].0.as_str()
            } else {
                ""
            },
            _ => "",
        }
    }

    /// What a variant of an enumeration carries; null where it carries nothing.
    pub fn payload(&self) -> (result: &Datum)
        ensures
            result@ == payload(self@),
    {
        match self {
            Datum::Object(map) => if map.entries.len() == 1 {
                assert(map@[0].1 == map.entries[0].1@);
                &map.entries[0].1
            } else {
                &Datum::Null
            },
            _ => &Datum::Null,
        }
    }

    /// Whether this is the variant `name` of an enumeration.
    pub fn is(&self, name: &str) -> (result: bool)
        ensures
            result == (tag(self@) == name@),
    {
        same(self.tag(), name)
    }

    /// The characters of a text; none for any other value.
    pub fn text(&self) -> (result: &str)
        ensures
            result@ == text(self@),
    {
        proof {
            reveal_strlit("");
            assert(""@ =~= Seq::<char>::empty());
        }
        match self {
            Datum::String(s) => s.as_str(),
            _ => "",
        }
    }

    /// The text, where the value is one.
    pub fn as_str(&self) -> (result: Option<&str>)
        ensures
            match result {
                Some(s) => self@ == Json::String(s@),
                None => self@ !is String,
            },
    {
        match self {
            Datum::String(s) => Some(s.as_str()),
            _ => None,
        }
    }

    /// Whether the value is `true`.
    pub fn flag(&self) -> (result: bool)
        ensures
            result == flag(self@),
    {
        match self {
            Datum::Bool(b) => *b,
            _ => false,
        }
    }

    pub fn is_null(&self) -> (result: bool)
        ensures
            result == (self@ is Null),
    {
        match self {
            Datum::Null => true,
            _ => false,
        }
    }

    /// The value as a signed 64-bit integer.
    pub fn as_i64(&self) -> (result: Option<i64>)
        ensures
            result == as_int(self@),
    {
        match self {
            Datum::Number(Number::Int(n)) => Some(*n),
            _ => None,
        }
    }

    /// The value as an unsigned 64-bit integer.
    pub fn as_u64(&self) -> (result: Option<u64>)
        ensures
            result == as_unsigned(self@),
    {
        match self {
            Datum::Number(Number::Int(n)) => if *n >= 0 {
                Some(*n as u64)
            } else {
                None
            },
            Datum::Number(Number::Big(n)) => Some(*n),
            _ => None,
        }
    }

    /// The integer `n`.
    pub fn integer(n: i64) -> (result: Datum)
        ensures
            result@ == Json::Number(Num::Int(n)),
    {
        Datum::Number(Number::Int(n))
    }

    /// The text `s`.
    pub fn string(s: &str) -> (result: Datum)
        ensures
            result@ == Json::String(s@),
    {
        Datum::String(owned(s))
    }

    /// The variant `name` of an enumeration that carries `inner`.
    pub fn tagged(name: &str, inner: Datum) -> (result: Datum)
        ensures
            result@ == tagged(name@, inner@),
    {
        let mut entries: Vec<(String, Datum)> = Vec::new();
        entries.push((owned(name), inner));
        let map = OrdMap { entries };
        assert(map@ =~= seq![(name@, inner@)]);
        Datum::Object(map)
    }
}

/// The variant `name` of an enumeration that carries `inner`.
pub open spec fn tagged(name: Seq<char>, inner: Json) -> Json {
    Json::Object(seq![(name, inner)])
}

// ---------------------------------------------------------------------------------------------
// Equality
// ---------------------------------------------------------------------------------------------

/// Whether the text writes zero with either sign.
pub open spec fn real_zero(text: Seq<char>) -> bool {
    text == "0.0"@ || text == "-0.0"@
}

/// Numeric equality; the two zeros of floating point are equal.
pub open spec fn same_number(a: Num, b: Num) -> bool {
    match (a, b) {
        (Num::Real(x), Num::Real(y)) => x == y || real_zero(x) && real_zero(y),
        _ => a == b,
    }
}

/// Equality of JSON values.
pub open spec fn same_json(a: Json, b: Json) -> bool
    decreases a,
{
    match (a, b) {
        (Json::Number(x), Json::Number(y)) => same_number(x, y),
        (Json::Array(x), Json::Array(y)) => x.len() == y.len() && (forall|i: int|
            0 <= i < x.len() ==> same_json(#[trigger] x[i], y[i])),
        (Json::Object(x), Json::Object(y)) => x.len() == y.len() && (forall|i: int|
            0 <= i < x.len() ==> (#[trigger] x[i]).0 == y[i].0 && same_json(x[i].1, y[i].1)),
        _ => a == b,
    }
}

impl Number {
    /// Numeric equality; the two zeros of floating point are equal.
    pub fn equals(&self, other: &Number) -> (result: bool)
        ensures
            result == same_number(self.deep_view(), other.deep_view()),
    {
        match (self, other) {
            (Number::Int(a), Number::Int(b)) => *a == *b,
            (Number::Big(a), Number::Big(b)) => *a == *b,
            (Number::Real(a), Number::Real(b)) => same(a.as_str(), b.as_str()) || (same(
                a.as_str(),
                "0.0",
            ) || same(a.as_str(), "-0.0")) && (same(b.as_str(), "0.0") || same(b.as_str(), "-0.0")),
            _ => false,
        }
    }
}

impl Datum {
    /// Equality of JSON values.
    pub fn equals(&self, other: &Datum) -> (result: bool)
        ensures
            result == same_json(self@, other@),
        decreases self,
    {
        match (self, other) {
            (Datum::Null, Datum::Null) => true,
            (Datum::Bool(a), Datum::Bool(b)) => *a == *b,
            (Datum::Number(a), Datum::Number(b)) => a.equals(b),
            (Datum::String(a), Datum::String(b)) => same(a.as_str(), b.as_str()),
            (Datum::Array(a), Datum::Array(b)) => {
                if a.len() != b.len() {
                    return false;
                }
                let mut i: usize = 0;
                while i < a.len()
                    invariant
                        i <= a.len() == b.len(),
                        self matches Datum::Array(list) && list == a,
                        other matches Datum::Array(list) && list == b,
                        forall|j: int|
                            0 <= j < i ==> same_json(#[trigger] a.deep_view()[j], b.deep_view()[j]),
                    decreases a.len() - i,
                {
                    assert(a.deep_view()[i as int] == a[i as int]@);
                    assert(b.deep_view()[i as int] == b[i as int]@);
                    if !a[i].equals(&b[i]) {
                        return false;
                    }
                    i += 1;
                }
                true
            },
            (Datum::Object(a), Datum::Object(b)) => {
                if a.entries.len() != b.entries.len() {
                    return false;
                }
                let mut i: usize = 0;
                while i < a.entries.len()
                    invariant
                        i <= a.entries.len() == b.entries.len(),
                        self matches Datum::Object(map) && map == a,
                        other matches Datum::Object(map) && map == b,
                        forall|j: int|
                            0 <= j < i ==> (#[trigger] a@[j]).0 == b@[j].0 && same_json(a@[j].1, b@[j].1),
                    decreases a.entries.len() - i,
                {
                    assert(a@[i as int] == (a.entries[i as int].0@, a.entries[i as int].1@));
                    assert(b@[i as int] == (b.entries[i as int].0@, b.entries[i as int].1@));
                    if !same(a.entries[i].0.as_str(), b.entries[i].0.as_str()) {
                        return false;
                    }
                    if !a.entries[i].1.equals(&b.entries[i].1) {
                        return false;
                    }
                    i += 1;
                }
                true
            },
            _ => false,
        }
    }
}

} // verus!
