//! Reading a state from its canonical JSON text.

use vstd::prelude::*;
use crate::ast::{json_of, parse_json, Expr};
use crate::catalog::{
    AuthContext, AuthModel, Column, ColumnModel, Database, DatabaseModel, ForeignKey, ForeignKeyModel,
    FunctionModel, FunctionParameter, FunctionReturn, Identity, ParameterModel, Policy, PolicyModel,
    ReferentialAction, ReturnModel, Row, RowModel, SqlFunction, StableId, Table, TableModel,
};
use crate::codec::{database_reads_back, Codec};
use crate::encode::{database_text, Encode};
use crate::json::{group_value_views, Datum, Json};
use crate::layout::{keeps_layout, layout_value, read_nesting};
use crate::ordmap::{has_key, put, Key, OrdMap, Ranked};
use crate::outside::{expr_written, outside_json, outside_of, write_expr};
use crate::text::{parse_u64, parsed_u64, same};
use crate::value::{as_int, as_unsigned, child};
use crate::views::ViewModel;

verus! {

broadcast use group_value_views;

/// Types that are read from JSON.
pub trait Decode: DeepView + Sized {
    /// What is read from a value, where it has the right form.
    spec fn read_of(value: Json) -> Option<Self::V>;

    /// What is read from a value, where it has the right form.
    fn read(value: &Datum) -> (result: Option<Self>)
        ensures
            result.deep_view() == Self::read_of(value@),
    ;
}

impl Decode for u64 {
    open spec fn read_of(value: Json) -> Option<u64> {
        as_unsigned(value)
    }

    fn read(value: &Datum) -> (result: Option<Self>) {
        value.as_u64()
    }
}

impl Decode for bool {
    open spec fn read_of(value: Json) -> Option<bool> {
        match value {
            Json::Bool(b) => Some(b),
            _ => None,
        }
    }

    fn read(value: &Datum) -> (result: Option<Self>) {
        match value {
            Datum::Bool(b) => Some(*b),
            _ => None,
        }
    }
}

impl Decode for String {
    open spec fn read_of(value: Json) -> Option<Seq<char>> {
        match value {
            Json::String(s) => Some(s),
            _ => None,
        }
    }

    fn read(value: &Datum) -> (result: Option<Self>) {
        match value {
            Datum::String(s) => Some(s.clone()),
            _ => None,
        }
    }
}

impl Decode for Datum {
    open spec fn read_of(value: Json) -> Option<Json> {
        Some(value)
    }

    fn read(value: &Datum) -> (result: Option<Self>) {
        Some(value.copied())
    }
}

/// The elements of a list from position `from` on, read after those in `done`.
pub open spec fn read_list_from<T: Decode>(list: Seq<Json>, from: int, done: Seq<T::V>) -> Option<Seq<T::V>>
    decreases list.len() - from,
{
    if from < 0 || from >= list.len() {
        Some(done)
    } else {
        match T::read_of(list[from]) {
            Some(next) => read_list_from::<T>(list, from + 1, done.push(next)),
            None => None,
        }
    }
}

impl<T: Decode> Decode for Vec<T> {
    open spec fn read_of(value: Json) -> Option<Seq<T::V>> {
        match value {
            Json::Array(list) => read_list_from::<T>(list, 0, Seq::empty()),
            _ => None,
        }
    }

    fn read(value: &Datum) -> (result: Option<Self>) {
        match value {
            Datum::Array(list) => {
                let mut done: Vec<T> = Vec::new();
                let ghost model = list.deep_view();
                let mut i: usize = 0;
                assert(done.deep_view() =~= Seq::empty());
                while i < list.len()
                    invariant
                        i <= list.len(),
                        model == list.deep_view(),
                        read_list_from::<T>(model, 0, Seq::empty()) == read_list_from::<T>(
                            model,
                            i as int,
                            done.deep_view(),
                        ),
                        value@ == Json::Array(model),
                    decreases list.len() - i,
                {
                    assert(model[i as int] == list[i as int]@);
                    match T::read(&list[i]) {
                        Some(next) => {
                            let ghost before = done.deep_view();
                            let ghost added = next.deep_view();
                            done.push(next);
                            assert(done.deep_view() =~= before.push(added));
                        },
                        None => {
                            return None;
                        },
                    }
                    i += 1;
                }
                Some(done)
            },
            _ => None,
        }
    }
}

impl<T: Decode> Decode for Option<T> {
    open spec fn read_of(value: Json) -> Option<Option<T::V>> {
        match value {
            Json::Null => Some(None),
            _ => match T::read_of(value) {
                Some(inner) => Some(Some(inner)),
                None => None,
            },
        }
    }

    fn read(value: &Datum) -> (result: Option<Self>) {
        match value {
            Datum::Null => Some(None),
            _ => match T::read(value) {
                Some(inner) => Some(Some(inner)),
                None => None,
            },
        }
    }
}

impl<A: Decode, B: Decode> Decode for (A, B) {
    open spec fn read_of(value: Json) -> Option<(A::V, B::V)> {
        if value is Array && value->Array_0.len() == 2 {
            match (A::read_of(value->Array_0[0]), B::read_of(value->Array_0[1])) {
                (Some(a), Some(b)) => Some((a, b)),
                _ => None,
            }
        } else {
            None
        }
    }

    fn read(value: &Datum) -> (result: Option<Self>) {
        match value {
            Datum::Array(list) => {
                assert(value@ == Json::Array(list.deep_view()));
                if list.len() != 2 {
                    return None;
                }
                match (A::read(&list[0]), B::read(&list[1])) {
                    (Some(a), Some(b)) => Some((a, b)),
                    _ => None,
                }
            },
            _ => None,
        }
    }
}

/// The entries of an object from position `from` on, read and put into `done`.
pub open spec fn read_map_from<T: Decode>(
    entries: Seq<(Seq<char>, Json)>,
    from: int,
    done: Seq<(Seq<char>, T::V)>,
) -> Option<Seq<(Seq<char>, T::V)>>
    decreases entries.len() - from,
{
    if from < 0 || from >= entries.len() {
        Some(done)
    } else {
        match T::read_of(entries[from].1) {
            Some(next) => read_map_from::<T>(entries, from + 1, put(done, entries[from].0, next)),
            None => None,
        }
    }
}

impl<T: Decode> Decode for OrdMap<String, T> {
    open spec fn read_of(value: Json) -> Option<Seq<(Seq<char>, T::V)>> {
        match value {
            Json::Object(entries) => read_map_from::<T>(entries, 0, Seq::empty()),
            _ => None,
        }
    }

    fn read(value: &Datum) -> (result: Option<Self>) {
        match value {
            Datum::Object(map) => {
                let mut done: OrdMap<String, T> = OrdMap::new();
                let ghost model = map@;
                let mut i: usize = 0;
                while i < map.len()
                    invariant
                        i <= map@.len(),
                        model == map@,
                        read_map_from::<T>(model, 0, Seq::empty()) == read_map_from::<T>(
                            model,
                            i as int,
                            done@,
                        ),
                        value@ == Json::Object(model),
                    decreases map@.len() - i,
                {
                    match T::read(map.value_at(i)) {
                        Some(next) => {
                            done.insert(map.key_at(i).clone(), next);
                        },
                        None => {
                            return None;
                        },
                    }
                    i += 1;
                }
                Some(done)
            },
            _ => None,
        }
    }
}

/// The names in a list from position `from` on, read and put into `done`.
pub open spec fn read_names_from(list: Seq<Json>, from: int, done: Seq<(Seq<char>, ())>) -> Option<Seq<(Seq<char>, ())>>
    decreases list.len() - from,
{
    if from < 0 || from >= list.len() {
        Some(done)
    } else {
        match <String>::read_of(list[from]) {
            Some(next) => read_names_from(list, from + 1, put(done, next, ())),
            None => None,
        }
    }
}

/// The names in a list as a set.
pub open spec fn read_names_of(value: Json) -> Option<Seq<(Seq<char>, ())>> {
    match value {
        Json::Array(list) => read_names_from(list, 0, Seq::empty()),
        _ => None,
    }
}

fn read_names(value: &Datum) -> (result: Option<OrdMap<String, ()>>)
    ensures
        result.deep_view() == read_names_of(value@),
{
    match value {
        Datum::Array(list) => {
            let mut done: OrdMap<String, ()> = OrdMap::new();
            let ghost model = list.deep_view();
            let mut i: usize = 0;
            while i < list.len()
                invariant
                    i <= list.len(),
                    model == list.deep_view(),
                    read_names_from(model, 0, Seq::empty()) == read_names_from(model, i as int, done@),
                    value@ == Json::Array(model),
                decreases list.len() - i,
            {
                assert(model[i as int] == list[i as int]@);
                match <String>::read(&list[i]) {
                    Some(next) => {
                        done.insert(next, ());
                    },
                    None => {
                        return None;
                    },
                }
                i += 1;
            }
            Some(done)
        },
        _ => None,
    }
}

/// The keys in a list from position `from` on, read and put into `done`.
pub open spec fn read_keys_from(list: Seq<Json>, from: int, done: Seq<(Seq<Seq<char>>, ())>) -> Option<Seq<(Seq<Seq<char>>, ())>>
    decreases list.len() - from,
{
    if from < 0 || from >= list.len() {
        Some(done)
    } else {
        match <Vec<String>>::read_of(list[from]) {
            Some(next) => read_keys_from(list, from + 1, put(done, next, ())),
            None => None,
        }
    }
}

/// The keys in a list as a set.
pub open spec fn read_keys_of(value: Json) -> Option<Seq<(Seq<Seq<char>>, ())>> {
    match value {
        Json::Array(list) => read_keys_from(list, 0, Seq::empty()),
        _ => None,
    }
}

fn read_keys(value: &Datum) -> (result: Option<OrdMap<Vec<String>, ()>>)
    ensures
        result.deep_view() == read_keys_of(value@),
{
    match value {
        Datum::Array(list) => {
            let mut done: OrdMap<Vec<String>, ()> = OrdMap::new();
            let ghost model = list.deep_view();
            let mut i: usize = 0;
            while i < list.len()
                invariant
                    i <= list.len(),
                    model == list.deep_view(),
                    read_keys_from(model, 0, Seq::empty()) == read_keys_from(model, i as int, done@),
                    value@ == Json::Array(model),
                decreases list.len() - i,
            {
                assert(model[i as int] == list[i as int]@);
                match <Vec<String>>::read(&list[i]) {
                    Some(next) => {
                        done.insert(next, ());
                    },
                    None => {
                        return None;
                    },
                }
                i += 1;
            }
            Some(done)
        },
        _ => None,
    }
}

/// Rows from position `from` on, each under its identity in decimal, read and put into `done`.
pub open spec fn read_rows_from(
    entries: Seq<(Seq<char>, Json)>,
    from: int,
    done: Seq<(u64, RowModel)>,
) -> Option<Seq<(u64, RowModel)>>
    decreases entries.len() - from,
{
    if from < 0 || from >= entries.len() {
        Some(done)
    } else {
        match (parsed_u64(entries[from].0), Row::read_of(entries[from].1)) {
            (Some(id), Some(row)) => read_rows_from(entries, from + 1, put(done, id, row)),
            _ => None,
        }
    }
}

/// Rows, each under its identity in decimal.
pub open spec fn read_rows_of(value: Json) -> Option<Seq<(u64, RowModel)>> {
    match value {
        Json::Object(entries) => read_rows_from(entries, 0, Seq::empty()),
        _ => None,
    }
}

fn read_rows(value: &Datum) -> (result: Option<OrdMap<StableId, Row>>)
    ensures
        result.deep_view() == read_rows_of(value@),
{
    match value {
        Datum::Object(map) => {
            let mut done: OrdMap<StableId, Row> = OrdMap::new();
            let ghost model = map@;
            let mut i: usize = 0;
            while i < map.len()
                invariant
                    i <= map@.len(),
                    model == map@,
                    read_rows_from(model, 0, Seq::empty()) == read_rows_from(model, i as int, done@),
                    value@ == Json::Object(model),
                decreases map@.len() - i,
            {
                match (parse_u64(map.key_at(i).as_str()), Row::read(map.value_at(i))) {
                    (Some(id), Some(row)) => {
                        done.insert(id, row);
                    },
                    _ => {
                        return None;
                    },
                }
                i += 1;
            }
            Some(done)
        },
        _ => None,
    }
}

/// An expression tree, put into the form in which it is serialized.
pub open spec fn read_expr_of(value: Json) -> Option<Json> {
    match expr_written(outside_json(value)) {
        Some(written) => match json_of(written) {
            Ok(tree) => Some(tree),
            Err(_) => None,
        },
        None => None,
    }
}

fn read_expr(value: &Datum) -> (result: Option<Expr>)
    ensures
        result.deep_view() == read_expr_of(value@),
{
    match write_expr(outside_of(value)) {
        Some(written) => match parse_json(written.as_str()) {
            Ok(tree) => Some(tree),
            Err(_) => None,
        },
        None => None,
    }
}

/// An expression tree or null.
pub open spec fn read_optional_expr_of(value: Json) -> Option<Option<Json>> {
    match value {
        Json::Null => Some(None),
        _ => match read_expr_of(value) {
            Some(tree) => Some(Some(tree)),
            None => None,
        },
    }
}

fn read_optional_expr(value: &Datum) -> (result: Option<Option<Expr>>)
    ensures
        result.deep_view() == read_optional_expr_of(value@),
{
    match value {
        Datum::Null => Some(None),
        _ => match read_expr(value) {
            Some(tree) => Some(Some(tree)),
            None => None,
        },
    }
}

/// The expression trees of a list from position `from` on, after those in `done`.
pub open spec fn read_exprs_from(list: Seq<Json>, from: int, done: Seq<Json>) -> Option<Seq<Json>>
    decreases list.len() - from,
{
    if from < 0 || from >= list.len() {
        Some(done)
    } else {
        match read_expr_of(list[from]) {
            Some(next) => read_exprs_from(list, from + 1, done.push(next)),
            None => None,
        }
    }
}

/// The expression trees of a list.
pub open spec fn read_exprs_of(value: Json) -> Option<Seq<Json>> {
    match value {
        Json::Array(list) => read_exprs_from(list, 0, Seq::empty()),
        _ => None,
    }
}

fn read_exprs(value: &Datum) -> (result: Option<Vec<Expr>>)
    ensures
        result.deep_view() == read_exprs_of(value@),
{
    match value {
        Datum::Array(list) => {
            let mut done: Vec<Expr> = Vec::new();
            let ghost model = list.deep_view();
            let mut i: usize = 0;
            assert(done.deep_view() =~= Seq::<Json>::empty());
            while i < list.len()
                invariant
                    i <= list.len(),
                    model == list.deep_view(),
                    read_exprs_from(model, 0, Seq::empty()) == read_exprs_from(
                        model,
                        i as int,
                        done.deep_view(),
                    ),
                    value@ == Json::Array(model),
                decreases list.len() - i,
            {
                assert(model[i as int] == list[i as int]@);
                match read_expr(&list[i]) {
                    Some(next) => {
                        let ghost before = done.deep_view();
                        let ghost added = next@;
                        done.push(next);
                        assert(done.deep_view() =~= before.push(added));
                    },
                    None => {
                        return None;
                    },
                }
                i += 1;
            }
            Some(done)
        },
        _ => None,
    }
}

/// A referential action by its name, or null.
pub open spec fn read_action_of(value: Json) -> Option<Option<ReferentialAction>> {
    match value {
        Json::Null => Some(None),
        Json::String(name) => if name == "Restrict"@ {
            Some(Some(ReferentialAction::Restrict))
        } else if name == "Cascade"@ {
            Some(Some(ReferentialAction::Cascade))
        } else if name == "SetNull"@ {
            Some(Some(ReferentialAction::SetNull))
        } else if name == "NoAction"@ {
            Some(Some(ReferentialAction::NoAction))
        } else if name == "SetDefault"@ {
            Some(Some(ReferentialAction::SetDefault))
        } else {
            None
        },
        _ => None,
    }
}

fn read_action(value: &Datum) -> (result: Option<Option<ReferentialAction>>)
    ensures
        result == read_action_of(value@),
{
    match value {
        Datum::Null => Some(None),
        Datum::String(name) => {
            let name = name.as_str();
            if same(name, "Restrict") {
                Some(Some(ReferentialAction::Restrict))
            } else if same(name, "Cascade") {
                Some(Some(ReferentialAction::Cascade))
            } else if same(name, "SetNull") {
                Some(Some(ReferentialAction::SetNull))
            } else if same(name, "NoAction") {
                Some(Some(ReferentialAction::NoAction))
            } else if same(name, "SetDefault") {
                Some(Some(ReferentialAction::SetDefault))
            } else {
                None
            }
        },
        _ => None,
    }
}

/// Whether an object has a field.
pub open spec fn present(value: Json, key: Seq<char>) -> bool {
    value is Object && has_key(value->Object_0, key)
}

fn is_present(value: &Datum, key: &str) -> (result: bool)
    ensures
        result == present(value@, key@),
{
    match value {
        Datum::Object(map) => map.holds(key),
        _ => false,
    }
}

fn is_object(value: &Datum) -> (result: bool)
    ensures
        result == (value@ is Object),
{
    match value {
        Datum::Object(_) => true,
        _ => false,
    }
}

/// A flag that is false where the field is missing.
pub open spec fn read_flag_of(value: Json, key: Seq<char>) -> Option<bool> {
    if present(value, key) {
        bool::read_of(child(value, key))
    } else {
        Some(false)
    }
}

fn read_flag(value: &Datum, key: &str) -> (result: Option<bool>)
    ensures
        result == read_flag_of(value@, key@),
{
    if is_present(value, key) {
        bool::read(value.child(key))
    } else {
        Some(false)
    }
}

/// A map that is empty where the field is missing.
pub open spec fn read_map_field_of<T: Decode>(value: Json, key: Seq<char>) -> Option<Seq<(Seq<char>, T::V)>> {
    if present(value, key) {
        <OrdMap<String, T>>::read_of(child(value, key))
    } else {
        Some(Seq::empty())
    }
}

fn read_map_field<T: Decode>(value: &Datum, key: &str) -> (result: Option<OrdMap<String, T>>)
    ensures
        result.deep_view() == read_map_field_of::<T>(value@, key@),
{
    if is_present(value, key) {
        <OrdMap<String, T>>::read(value.child(key))
    } else {
        Some(OrdMap::new())
    }
}

/// Keys that are none where the field is missing.
pub open spec fn read_keys_field_of(value: Json, key: Seq<char>) -> Option<Seq<(Seq<Seq<char>>, ())>> {
    if present(value, key) {
        read_keys_of(child(value, key))
    } else {
        Some(Seq::empty())
    }
}

fn read_keys_field(value: &Datum, key: &str) -> (result: Option<OrdMap<Vec<String>, ()>>)
    ensures
        result.deep_view() == read_keys_field_of(value@, key@),
{
    if is_present(value, key) {
        read_keys(value.child(key))
    } else {
        Some(OrdMap::new())
    }
}

/// Any value, where the field is there.
pub open spec fn read_any_of(value: Json, key: Seq<char>) -> Option<Json> {
    if present(value, key) {
        Some(child(value, key))
    } else {
        None
    }
}

fn read_any(value: &Datum, key: &str) -> (result: Option<Datum>)
    ensures
        result.deep_view() == read_any_of(value@, key@),
{
    if is_present(value, key) {
        Some(value.child(key).copied())
    } else {
        None
    }
}

impl Decode for Identity {
    open spec fn read_of(value: Json) -> Option<Identity> {
        if !(value is Object) {
            None
        } else {
            match (
                <bool>::read_of(child(value, "always"@)),
                as_int(child(value, "start"@)),
                as_int(child(value, "increment"@)),
            ) {
                (Some(always), Some(start), Some(increment)) => Some(
                    Identity { always, start, increment },
                ),
                _ => None,
            }
        }
    }

    fn read(value: &Datum) -> (result: Option<Self>) {
        if !is_object(value) {
            return None;
        }
        match (
            <bool>::read(value.child("always")),
            value.child("start").as_i64(),
            value.child("increment").as_i64(),
        ) {
            (Some(always), Some(start), Some(increment)) => Some(
                Identity { always, start, increment },
            ),
            _ => None,
        }
    }
}

impl Decode for AuthContext {
    open spec fn read_of(value: Json) -> Option<AuthModel> {
        if !(value is Object) {
            None
        } else {
            match (
                <String>::read_of(child(value, "role"@)),
                <Option<String>>::read_of(child(value, "uid"@)),
                read_any_of(value, "jwt_claims"@),
                <bool>::read_of(child(value, "privileged"@)),
            ) {
                (Some(role), Some(uid), Some(jwt_claims), Some(privileged)) => Some(
                    AuthModel { role, uid, jwt_claims, privileged },
                ),
                _ => None,
            }
        }
    }

    fn read(value: &Datum) -> (result: Option<Self>) {
        if !is_object(value) {
            return None;
        }
        match (
            <String>::read(value.child("role")),
            <Option<String>>::read(value.child("uid")),
            read_any(value, "jwt_claims"),
            <bool>::read(value.child("privileged")),
        ) {
            (Some(role), Some(uid), Some(jwt_claims), Some(privileged)) => Some(
                AuthContext { role, uid, jwt_claims, privileged },
            ),
            _ => None,
        }
    }
}

impl Decode for Column {
    open spec fn read_of(value: Json) -> Option<ColumnModel> {
        if !(value is Object) {
            None
        } else {
            match (
                <u64>::read_of(child(value, "id"@)),
                <String>::read_of(child(value, "name"@)),
                <String>::read_of(child(value, "data_type"@)),
                <bool>::read_of(child(value, "nullable"@)),
                read_optional_expr_of(child(value, "default"@)),
                <Option<Identity>>::read_of(child(value, "identity"@)),
                read_optional_expr_of(child(value, "generated"@)),
            ) {
                (Some(id), Some(name), Some(data_type), Some(nullable), Some(default), Some(identity), Some(generated)) => Some(
                    ColumnModel { id, name, data_type, nullable, default, identity, generated },
                ),
                _ => None,
            }
        }
    }

    fn read(value: &Datum) -> (result: Option<Self>) {
        if !is_object(value) {
            return None;
        }
        match (
            <u64>::read(value.child("id")),
            <String>::read(value.child("name")),
            <String>::read(value.child("data_type")),
            <bool>::read(value.child("nullable")),
            read_optional_expr(value.child("default")),
            <Option<Identity>>::read(value.child("identity")),
            read_optional_expr(value.child("generated")),
        ) {
            (Some(id), Some(name), Some(data_type), Some(nullable), Some(default), Some(identity), Some(generated)) => Some(
                Column { id, name, data_type, nullable, default, identity, generated },
            ),
            _ => None,
        }
    }
}

impl Decode for Row {
    open spec fn read_of(value: Json) -> Option<RowModel> {
        if !(value is Object) {
            None
        } else {
            match (
                <u64>::read_of(child(value, "id"@)),
                <u64>::read_of(child(value, "version"@)),
                <OrdMap<String, Datum>>::read_of(child(value, "values"@)),
            ) {
                (Some(id), Some(version), Some(values)) => Some(
                    RowModel { id, version, values },
                ),
                _ => None,
            }
        }
    }

    fn read(value: &Datum) -> (result: Option<Self>) {
        if !is_object(value) {
            return None;
        }
        match (
            <u64>::read(value.child("id")),
            <u64>::read(value.child("version")),
            <OrdMap<String, Datum>>::read(value.child("values")),
        ) {
            (Some(id), Some(version), Some(values)) => Some(
                Row { id, version, values },
            ),
            _ => None,
        }
    }
}

impl Decode for ForeignKey {
    open spec fn read_of(value: Json) -> Option<ForeignKeyModel> {
        if !(value is Object) {
            None
        } else {
            match (
                <Vec<String>>::read_of(child(value, "columns"@)),
                <String>::read_of(child(value, "foreign_table"@)),
                <Vec<String>>::read_of(child(value, "referred_columns"@)),
                read_action_of(child(value, "on_delete"@)),
                read_action_of(child(value, "on_update"@)),
                read_flag_of(value, "deferred"@),
            ) {
                (Some(columns), Some(foreign_table), Some(referred_columns), Some(on_delete), Some(on_update), Some(deferred)) => Some(
                    ForeignKeyModel { columns, foreign_table, referred_columns, on_delete, on_update, deferred },
                ),
                _ => None,
            }
        }
    }

    fn read(value: &Datum) -> (result: Option<Self>) {
        if !is_object(value) {
            return None;
        }
        match (
            <Vec<String>>::read(value.child("columns")),
            <String>::read(value.child("foreign_table")),
            <Vec<String>>::read(value.child("referred_columns")),
            read_action(value.child("on_delete")),
            read_action(value.child("on_update")),
            read_flag(value, "deferred"),
        ) {
            (Some(columns), Some(foreign_table), Some(referred_columns), Some(on_delete), Some(on_update), Some(deferred)) => Some(
                ForeignKey { columns, foreign_table, referred_columns, on_delete, on_update, deferred },
            ),
            _ => None,
        }
    }
}

impl Decode for Policy {
    open spec fn read_of(value: Json) -> Option<PolicyModel> {
        if !(value is Object) {
            None
        } else {
            match (
                <String>::read_of(child(value, "name"@)),
                <String>::read_of(child(value, "command"@)),
                <Vec<String>>::read_of(child(value, "roles"@)),
                <bool>::read_of(child(value, "permissive"@)),
                read_optional_expr_of(child(value, "using"@)),
                read_optional_expr_of(child(value, "check"@)),
            ) {
                (Some(name), Some(command), Some(roles), Some(permissive), Some(using), Some(check)) => Some(
                    PolicyModel { name, command, roles, permissive, using, check },
                ),
                _ => None,
            }
        }
    }

    fn read(value: &Datum) -> (result: Option<Self>) {
        if !is_object(value) {
            return None;
        }
        match (
            <String>::read(value.child("name")),
            <String>::read(value.child("command")),
            <Vec<String>>::read(value.child("roles")),
            <bool>::read(value.child("permissive")),
            read_optional_expr(value.child("using")),
            read_optional_expr(value.child("check")),
        ) {
            (Some(name), Some(command), Some(roles), Some(permissive), Some(using), Some(check)) => Some(
                Policy { name, command, roles, permissive, using, check },
            ),
            _ => None,
        }
    }
}

impl Decode for Table {
    open spec fn read_of(value: Json) -> Option<TableModel> {
        if !(value is Object) {
            None
        } else {
            match (
                <u64>::read_of(child(value, "id"@)),
                <String>::read_of(child(value, "name"@)),
                <Vec<Column>>::read_of(child(value, "columns"@)),
                <Vec<String>>::read_of(child(value, "primary_key"@)),
                <Vec<Vec<String>>>::read_of(child(value, "unique"@)),
                read_keys_field_of(value, "deferred_unique"@),
                <Vec<ForeignKey>>::read_of(child(value, "foreign_keys"@)),
                read_exprs_of(child(value, "checks"@)),
                <bool>::read_of(child(value, "rls_enabled"@)),
                <Vec<Policy>>::read_of(child(value, "policies"@)),
                read_rows_of(child(value, "rows"@)),
                <u64>::read_of(child(value, "next_row_id"@)),
            ) {
                (Some(id), Some(name), Some(columns), Some(primary_key), Some(unique), Some(deferred_unique), Some(foreign_keys), Some(checks), Some(rls_enabled), Some(policies), Some(rows), Some(next_row_id)) => Some(
                    TableModel { id, name, columns, primary_key, unique, deferred_unique, foreign_keys, checks, rls_enabled, policies, rows, next_row_id },
                ),
                _ => None,
            }
        }
    }

    fn read(value: &Datum) -> (result: Option<Self>) {
        if !is_object(value) {
            return None;
        }
        match (
            <u64>::read(value.child("id")),
            <String>::read(value.child("name")),
            <Vec<Column>>::read(value.child("columns")),
            <Vec<String>>::read(value.child("primary_key")),
            <Vec<Vec<String>>>::read(value.child("unique")),
            read_keys_field(value, "deferred_unique"),
            <Vec<ForeignKey>>::read(value.child("foreign_keys")),
            read_exprs(value.child("checks")),
            <bool>::read(value.child("rls_enabled")),
            <Vec<Policy>>::read(value.child("policies")),
            read_rows(value.child("rows")),
            <u64>::read(value.child("next_row_id")),
        ) {
            (Some(id), Some(name), Some(columns), Some(primary_key), Some(unique), Some(deferred_unique), Some(foreign_keys), Some(checks), Some(rls_enabled), Some(policies), Some(rows), Some(next_row_id)) => Some(
                Table { id, name, columns, primary_key, unique, deferred_unique, foreign_keys, checks, rls_enabled, policies, rows, next_row_id },
            ),
            _ => None,
        }
    }
}

impl Decode for crate::views::View {
    open spec fn read_of(value: Json) -> Option<ViewModel> {
        if !(value is Object) {
            None
        } else {
            match (
                <String>::read_of(child(value, "sql"@)),
                <bool>::read_of(child(value, "materialized"@)),
            ) {
                (Some(sql), Some(materialized)) => Some(
                    ViewModel { sql, materialized },
                ),
                _ => None,
            }
        }
    }

    fn read(value: &Datum) -> (result: Option<Self>) {
        if !is_object(value) {
            return None;
        }
        match (
            <String>::read(value.child("sql")),
            <bool>::read(value.child("materialized")),
        ) {
            (Some(sql), Some(materialized)) => Some(
                crate::views::View { sql, materialized },
            ),
            _ => None,
        }
    }
}

impl Decode for FunctionParameter {
    open spec fn read_of(value: Json) -> Option<ParameterModel> {
        if !(value is Object) {
            None
        } else {
            match (
                <String>::read_of(child(value, "name"@)),
                <String>::read_of(child(value, "data_type"@)),
                read_optional_expr_of(child(value, "default"@)),
            ) {
                (Some(name), Some(data_type), Some(default)) => Some(
                    ParameterModel { name, data_type, default },
                ),
                _ => None,
            }
        }
    }

    fn read(value: &Datum) -> (result: Option<Self>) {
        if !is_object(value) {
            return None;
        }
        match (
            <String>::read(value.child("name")),
            <String>::read(value.child("data_type")),
            read_optional_expr(value.child("default")),
        ) {
            (Some(name), Some(data_type), Some(default)) => Some(
                FunctionParameter { name, data_type, default },
            ),
            _ => None,
        }
    }
}

impl Decode for SqlFunction {
    open spec fn read_of(value: Json) -> Option<FunctionModel> {
        if !(value is Object) {
            None
        } else {
            match (
                <String>::read_of(child(value, "name"@)),
                <Vec<FunctionParameter>>::read_of(child(value, "parameters"@)),
                <FunctionReturn>::read_of(child(value, "return_kind"@)),
                <String>::read_of(child(value, "body"@)),
                <bool>::read_of(child(value, "security_definer"@)),
                <Option<AuthContext>>::read_of(child(value, "definer_context"@)),
            ) {
                (Some(name), Some(parameters), Some(return_kind), Some(body), Some(security_definer), Some(definer_context)) => Some(
                    FunctionModel { name, parameters, return_kind, body, security_definer, definer_context },
                ),
                _ => None,
            }
        }
    }

    fn read(value: &Datum) -> (result: Option<Self>) {
        if !is_object(value) {
            return None;
        }
        match (
            <String>::read(value.child("name")),
            <Vec<FunctionParameter>>::read(value.child("parameters")),
            <FunctionReturn>::read(value.child("return_kind")),
            <String>::read(value.child("body")),
            <bool>::read(value.child("security_definer")),
            <Option<AuthContext>>::read(value.child("definer_context")),
        ) {
            (Some(name), Some(parameters), Some(return_kind), Some(body), Some(security_definer), Some(definer_context)) => Some(
                SqlFunction { name, parameters, return_kind, body, security_definer, definer_context },
            ),
            _ => None,
        }
    }
}

impl Decode for Database {
    open spec fn read_of(value: Json) -> Option<DatabaseModel> {
        if !(value is Object) {
            None
        } else {
            match (
                <OrdMap<String, Table>>::read_of(child(value, "catalog"@)),
                read_map_field_of::<crate::views::View>(value, "views"@),
                read_map_field_of::<SqlFunction>(value, "functions"@),
                read_names_of(child(value, "migrations"@)),
                <u64>::read_of(child(value, "schema_version"@)),
                <u64>::read_of(child(value, "next_object_id"@)),
            ) {
                (Some(catalog), Some(views), Some(functions), Some(migrations), Some(schema_version), Some(next_object_id)) => Some(
                    DatabaseModel { catalog, views, functions, migrations, schema_version, next_object_id },
                ),
                _ => None,
            }
        }
    }

    fn read(value: &Datum) -> (result: Option<Self>) {
        if !is_object(value) {
            return None;
        }
        match (
            <OrdMap<String, Table>>::read(value.child("catalog")),
            read_map_field::<crate::views::View>(value, "views"),
            read_map_field::<SqlFunction>(value, "functions"),
            read_names(value.child("migrations")),
            <u64>::read(value.child("schema_version")),
            <u64>::read(value.child("next_object_id")),
        ) {
            (Some(catalog), Some(views), Some(functions), Some(migrations), Some(schema_version), Some(next_object_id)) => Some(
                Database { catalog, views, functions, migrations, schema_version, next_object_id },
            ),
            _ => None,
        }
    }
}

/// What a function returns, by the name of its form.
pub open spec fn read_return_of(name: Seq<char>, inner: Json) -> Option<ReturnModel> {
    if name == "Scalar"@ {
        match String::read_of(inner) {
            Some(declared) => Some(ReturnModel::Scalar(declared)),
            None => None,
        }
    } else if name == "SetOf"@ {
        match String::read_of(inner) {
            Some(declared) => Some(ReturnModel::SetOf(declared)),
            None => None,
        }
    } else if name == "Table"@ {
        match <Vec<(String, String)>>::read_of(inner) {
            Some(columns) => Some(ReturnModel::Table(columns)),
            None => None,
        }
    } else if name == "Void"@ && inner is Null {
        Some(ReturnModel::Void)
    } else {
        None
    }
}

fn read_return(name: &str, inner: &Datum) -> (result: Option<FunctionReturn>)
    ensures
        result.deep_view() == read_return_of(name@, inner@),
{
    if same(name, "Scalar") {
        match String::read(inner) {
            Some(declared) => Some(FunctionReturn::Scalar(declared)),
            None => None,
        }
    } else if same(name, "SetOf") {
        match String::read(inner) {
            Some(declared) => Some(FunctionReturn::SetOf(declared)),
            None => None,
        }
    } else if same(name, "Table") {
        match <Vec<(String, String)>>::read(inner) {
            Some(columns) => Some(FunctionReturn::Table(columns)),
            None => None,
        }
    } else if same(name, "Void") && inner.is_null() {
        Some(FunctionReturn::Void)
    } else {
        None
    }
}

impl Decode for FunctionReturn {
    open spec fn read_of(value: Json) -> Option<ReturnModel> {
        match value {
            Json::String(name) => read_return_of(name, Json::Null),
            Json::Object(entries) => if entries.len() == 1 {
                read_return_of(entries[0].0, entries[0].1)
            } else {
                None
            },
            _ => None,
        }
    }

    fn read(value: &Datum) -> (result: Option<Self>) {
        match value {
            Datum::String(name) => read_return(name.as_str(), &Datum::Null),
            Datum::Object(map) => {
                if map.len() != 1 {
                    return None;
                }
                read_return(map.key_at(0).as_str(), map.value_at(0))
            },
            _ => None,
        }
    }
}

/// A state from its JSON text.
pub open spec fn database_read(source: Seq<char>) -> Option<DatabaseModel> {
    match json_of(source) {
        Ok(value) => Database::read_of(value),
        Err(_) => None,
    }
}

/// A state from its JSON text.
pub fn read_database(source: &str) -> (result: Option<Database>)
    ensures
        result.deep_view() == database_read(source@),
        forall|database: DatabaseModel|
            #![trigger database_text(database)]
            Database::canonical(database) && keeps_layout(Database::layout_of(database), read_nesting()) && source@
                == database_text(database) ==> result.deep_view() == Some(database),
{
    proof {
        assert forall|database: DatabaseModel|
            #![trigger database_text(database)]
            Database::canonical(database) && json_of(source@) == Ok::<Json, Seq<char>>(
                layout_value(Database::layout_of(database)),
            ) && source@ == database_text(database) implies database_read(source@) == Some(database) by {
            database_reads_back(database);
        }
    }
    match parse_json(source) {
        Ok(value) => Database::read(&value),
        Err(_) => None,
    }
}

} // verus!
