//! Equality of states.

use vstd::prelude::*;
use crate::catalog::{
    AuthContext, AuthModel, Column, ColumnModel, Database, DatabaseModel, ForeignKey, ForeignKeyModel,
    FunctionModel, FunctionParameter, FunctionReturn, Identity, ParameterModel, Policy, PolicyModel,
    ReferentialAction, ReturnModel, Row, RowModel, SqlFunction, Table, TableModel,
};
use crate::json::{Datum, Json};
use crate::ordmap::{Key, OrdMap};
use crate::text::same;
use crate::value::same_json;
use crate::views::ViewModel;

verus! {

/// Types with an equality of what they stand for.
pub trait Same: DeepView {
    /// Whether two values are equal.
    spec fn alike(a: Self::V, b: Self::V) -> bool;

    /// Every value is equal to itself.
    proof fn alike_to_itself(a: Self::V)
        ensures
            Self::alike(a, a),
    ;

    /// Two values that equal a third one are equal.
    proof fn alike_in_turn(a: Self::V, b: Self::V, c: Self::V)
        requires
            Self::alike(a, b),
            Self::alike(b, c),
        ensures
            Self::alike(a, c),
    ;

    /// Whether two values are equal.
    fn is_alike(&self, other: &Self) -> (result: bool)
        ensures
            result == Self::alike(self.deep_view(), other.deep_view()),
    ;
}

impl Same for () {
    open spec fn alike(a: (), b: ()) -> bool {
        true
    }

    proof fn alike_to_itself(a: ()) {
    }

    proof fn alike_in_turn(a: (), b: (), c: ()) {
    }

    fn is_alike(&self, other: &Self) -> (result: bool) {
        true
    }
}

impl Same for String {
    open spec fn alike(a: Seq<char>, b: Seq<char>) -> bool {
        a == b
    }

    proof fn alike_to_itself(a: Seq<char>) {
    }

    proof fn alike_in_turn(a: Seq<char>, b: Seq<char>, c: Seq<char>) {
    }

    fn is_alike(&self, other: &Self) -> (result: bool) {
        same(self.as_str(), other.as_str())
    }
}

/// Every JSON value is equal to itself.
pub proof fn json_alike_to_itself(a: Json)
    ensures
        same_json(a, a),
    decreases a,
{
    match a {
        Json::Array(list) => {
            assert forall|i: int| 0 <= i < list.len() implies same_json(#[trigger] list[i], list[i]) by {
                json_alike_to_itself(list[i]);
            }
        },
        Json::Object(entries) => {
            assert forall|i: int| 0 <= i < entries.len() implies (#[trigger] entries[i]).0 == entries[i].0
                && same_json(entries[i].1, entries[i].1) by {
                json_alike_to_itself(entries[i].1);
            }
        },
        _ => {},
    }
}

/// Two JSON values that equal a third one are equal.
pub proof fn json_alike_in_turn(a: Json, b: Json, c: Json)
    requires
        same_json(a, b),
        same_json(b, c),
    ensures
        same_json(a, c),
    decreases a,
{
    match (a, b, c) {
        (Json::Array(x), Json::Array(y), Json::Array(z)) => {
            assert forall|i: int| 0 <= i < x.len() implies same_json(#[trigger] x[i], z[i]) by {
                assert(same_json(y[i], z[i]));
                json_alike_in_turn(x[i], y[i], z[i]);
            }
        },
        (Json::Object(x), Json::Object(y), Json::Object(z)) => {
            assert forall|i: int| 0 <= i < x.len() implies (#[trigger] x[i]).0 == z[i].0 && same_json(
                x[i].1,
                z[i].1,
            ) by {
                assert(y[i].0 == z[i].0);
                json_alike_in_turn(x[i].1, y[i].1, z[i].1);
            }
        },
        _ => {},
    }
}

impl Same for Datum {
    open spec fn alike(a: Json, b: Json) -> bool {
        same_json(a, b)
    }

    proof fn alike_to_itself(a: Json) {
        json_alike_to_itself(a);
    }

    proof fn alike_in_turn(a: Json, b: Json, c: Json) {
        json_alike_in_turn(a, b, c);
    }

    fn is_alike(&self, other: &Self) -> (result: bool) {
        self.equals(other)
    }
}

impl<T: Same> Same for Option<T> {
    open spec fn alike(a: Option<T::V>, b: Option<T::V>) -> bool {
        match (a, b) {
            (Some(x), Some(y)) => T::alike(x, y),
            (None, None) => true,
            _ => false,
        }
    }

    proof fn alike_to_itself(a: Option<T::V>) {
        if a is Some {
            T::alike_to_itself(a->Some_0);
        }
    }

    proof fn alike_in_turn(a: Option<T::V>, b: Option<T::V>, c: Option<T::V>) {
        if a is Some {
            T::alike_in_turn(a->Some_0, b->Some_0, c->Some_0);
        }
    }

    fn is_alike(&self, other: &Self) -> (result: bool) {
        match (self, other) {
            (Some(x), Some(y)) => x.is_alike(y),
            (None, None) => true,
            _ => false,
        }
    }
}

impl<A: Same, B: Same> Same for (A, B) {
    open spec fn alike(a: (A::V, B::V), b: (A::V, B::V)) -> bool {
        A::alike(a.0, b.0) && B::alike(a.1, b.1)
    }

    proof fn alike_to_itself(a: (A::V, B::V)) {
        A::alike_to_itself(a.0);
        B::alike_to_itself(a.1);
    }

    proof fn alike_in_turn(a: (A::V, B::V), b: (A::V, B::V), c: (A::V, B::V)) {
        A::alike_in_turn(a.0, b.0, c.0);
        B::alike_in_turn(a.1, b.1, c.1);
    }

    fn is_alike(&self, other: &Self) -> (result: bool) {
        self.0.is_alike(&other.0) && self.1.is_alike(&other.1)
    }
}

impl<T: Same> Same for Vec<T> {
    open spec fn alike(a: Seq<T::V>, b: Seq<T::V>) -> bool {
        a.len() == b.len() && (forall|i: int| 0 <= i < a.len() ==> T::alike(#[trigger] a[i], b[i]))
    }

    proof fn alike_to_itself(a: Seq<T::V>) {
        assert forall|i: int| 0 <= i < a.len() implies T::alike(#[trigger] a[i], a[i]) by {
            T::alike_to_itself(a[i]);
        }
    }

    proof fn alike_in_turn(a: Seq<T::V>, b: Seq<T::V>, c: Seq<T::V>) {
        assert forall|i: int| 0 <= i < a.len() implies T::alike(#[trigger] a[i], c[i]) by {
            assert(T::alike(b[i], c[i]));
            T::alike_in_turn(a[i], b[i], c[i]);
        }
    }

    fn is_alike(&self, other: &Self) -> (result: bool) {
        if self.len() != other.len() {
            return false;
        }
        let ghost a = self.deep_view();
        let ghost b = other.deep_view();
        let mut i: usize = 0;
        while i < self.len()
            invariant
                i <= self.len() == other.len(),
                a == self.deep_view(),
                b == other.deep_view(),
                forall|j: int| 0 <= j < i ==> T::alike(#[trigger] a[j], b[j]),
            decreases self.len() - i,
        {
            assert(a[i as int] == self[i as int].deep_view());
            assert(b[i as int] == other[i as int].deep_view());
            if !self[i].is_alike(&other[i]) {
                return false;
            }
            i += 1;
        }
        true
    }
}

impl<K: Key, T: Same> Same for OrdMap<K, T> {
    open spec fn alike(a: Seq<(K::M, T::V)>, b: Seq<(K::M, T::V)>) -> bool {
        a.len() == b.len() && (forall|i: int|
            0 <= i < a.len() ==> (#[trigger] a[i]).0 == b[i].0 && T::alike(a[i].1, b[i].1))
    }

    proof fn alike_to_itself(a: Seq<(K::M, T::V)>) {
        assert forall|i: int| 0 <= i < a.len() implies (#[trigger] a[i]).0 == a[i].0 && T::alike(
            a[i].1,
            a[i].1,
        ) by {
            T::alike_to_itself(a[i].1);
        }
    }

    proof fn alike_in_turn(a: Seq<(K::M, T::V)>, b: Seq<(K::M, T::V)>, c: Seq<(K::M, T::V)>) {
        assert forall|i: int| 0 <= i < a.len() implies (#[trigger] a[i]).0 == c[i].0 && T::alike(
            a[i].1,
            c[i].1,
        ) by {
            assert(b[i].0 == c[i].0);
            T::alike_in_turn(a[i].1, b[i].1, c[i].1);
        }
    }

    fn is_alike(&self, other: &Self) -> (result: bool) {
        if self.len() != other.len() {
            return false;
        }
        let ghost a = self@;
        let ghost b = other@;
        let mut i: usize = 0;
        while i < self.len()
            invariant
                i <= self@.len() == other@.len(),
                a == self@,
                b == other@,
                forall|j: int| 0 <= j < i ==> (#[trigger] a[j]).0 == b[j].0 && T::alike(a[j].1, b[j].1),
            decreases self@.len() - i,
        {
            assert(a[i as int] == a[i as int]);
            if !self.key_at(i).is_same(other.key_at(i)) {
                return false;
            }
            if !self.value_at(i).is_alike(other.value_at(i)) {
                return false;
            }
            i += 1;
        }
        true
    }
}

/// Whether two optional identities are equal.
pub fn same_identity(a: &Option<Identity>, b: &Option<Identity>) -> (result: bool)
    ensures
        result == (*a == *b),
{
    match (a, b) {
        (Some(x), Some(y)) => *x == *y,
        (None, None) => true,
        _ => false,
    }
}

/// Whether two optional referential actions are equal.
pub fn same_action(a: &Option<ReferentialAction>, b: &Option<ReferentialAction>) -> (result: bool)
    ensures
        result == (*a == *b),
{
    match (a, b) {
        (Some(x), Some(y)) => *x == *y,
        (None, None) => true,
        _ => false,
    }
}

impl Same for FunctionReturn {
    open spec fn alike(a: ReturnModel, b: ReturnModel) -> bool {
        match (a, b) {
            (ReturnModel::Scalar(x), ReturnModel::Scalar(y)) => x == y,
            (ReturnModel::SetOf(x), ReturnModel::SetOf(y)) => x == y,
            (ReturnModel::Table(x), ReturnModel::Table(y)) => <Vec<(String, String)>>::alike(x, y),
            (ReturnModel::Void, ReturnModel::Void) => true,
            _ => false,
        }
    }

    proof fn alike_to_itself(a: ReturnModel) {
        if a is Table {
            <Vec<(String, String)>>::alike_to_itself(a->Table_0);
        }
    }

    proof fn alike_in_turn(a: ReturnModel, b: ReturnModel, c: ReturnModel) {
        if a is Table {
            <Vec<(String, String)>>::alike_in_turn(a->Table_0, b->Table_0, c->Table_0);
        }
    }

    fn is_alike(&self, other: &Self) -> (result: bool) {
        match (self, other) {
            (FunctionReturn::Scalar(x), FunctionReturn::Scalar(y)) => x.is_alike(y),
            (FunctionReturn::SetOf(x), FunctionReturn::SetOf(y)) => x.is_alike(y),
            (FunctionReturn::Table(x), FunctionReturn::Table(y)) => x.is_alike(y),
            (FunctionReturn::Void, FunctionReturn::Void) => true,
            _ => false,
        }
    }
}

impl Same for AuthContext {
    open spec fn alike(a: AuthModel, b: AuthModel) -> bool {
        &&& <String>::alike(a.role, b.role)
        &&& <Option<String>>::alike(a.uid, b.uid)
        &&& <Datum>::alike(a.jwt_claims, b.jwt_claims)
        &&& a.privileged == b.privileged
    }

    proof fn alike_to_itself(a: AuthModel) {
        <String>::alike_to_itself(a.role);
        <Option<String>>::alike_to_itself(a.uid);
        <Datum>::alike_to_itself(a.jwt_claims);
    }

    proof fn alike_in_turn(a: AuthModel, b: AuthModel, c: AuthModel) {
        <String>::alike_in_turn(a.role, b.role, c.role);
        <Option<String>>::alike_in_turn(a.uid, b.uid, c.uid);
        <Datum>::alike_in_turn(a.jwt_claims, b.jwt_claims, c.jwt_claims);
    }

    fn is_alike(&self, other: &Self) -> (result: bool) {
        self.role.is_alike(&other.role)
            && self.uid.is_alike(&other.uid)
            && self.jwt_claims.is_alike(&other.jwt_claims)
            && self.privileged == other.privileged
    }
}

impl Same for Column {
    open spec fn alike(a: ColumnModel, b: ColumnModel) -> bool {
        &&& a.id == b.id
        &&& <String>::alike(a.name, b.name)
        &&& <String>::alike(a.data_type, b.data_type)
        &&& a.nullable == b.nullable
        &&& <Option<Datum>>::alike(a.default, b.default)
        &&& a.identity == b.identity
        &&& <Option<Datum>>::alike(a.generated, b.generated)
    }

    proof fn alike_to_itself(a: ColumnModel) {
        <String>::alike_to_itself(a.name);
        <String>::alike_to_itself(a.data_type);
        <Option<Datum>>::alike_to_itself(a.default);
        <Option<Datum>>::alike_to_itself(a.generated);
    }

    proof fn alike_in_turn(a: ColumnModel, b: ColumnModel, c: ColumnModel) {
        <String>::alike_in_turn(a.name, b.name, c.name);
        <String>::alike_in_turn(a.data_type, b.data_type, c.data_type);
        <Option<Datum>>::alike_in_turn(a.default, b.default, c.default);
        <Option<Datum>>::alike_in_turn(a.generated, b.generated, c.generated);
    }

    fn is_alike(&self, other: &Self) -> (result: bool) {
        self.id == other.id
            && self.name.is_alike(&other.name)
            && self.data_type.is_alike(&other.data_type)
            && self.nullable == other.nullable
            && self.default.is_alike(&other.default)
            && same_identity(&self.identity, &other.identity)
            && self.generated.is_alike(&other.generated)
    }
}

impl Same for Row {
    open spec fn alike(a: RowModel, b: RowModel) -> bool {
        &&& a.id == b.id
        &&& a.version == b.version
        &&& <OrdMap<String, Datum>>::alike(a.values, b.values)
    }

    proof fn alike_to_itself(a: RowModel) {
        <OrdMap<String, Datum>>::alike_to_itself(a.values);
    }

    proof fn alike_in_turn(a: RowModel, b: RowModel, c: RowModel) {
        <OrdMap<String, Datum>>::alike_in_turn(a.values, b.values, c.values);
    }

    fn is_alike(&self, other: &Self) -> (result: bool) {
        self.id == other.id
            && self.version == other.version
            && self.values.is_alike(&other.values)
    }
}

impl Same for ForeignKey {
    open spec fn alike(a: ForeignKeyModel, b: ForeignKeyModel) -> bool {
        &&& <Vec<String>>::alike(a.columns, b.columns)
        &&& <String>::alike(a.foreign_table, b.foreign_table)
        &&& <Vec<String>>::alike(a.referred_columns, b.referred_columns)
        &&& a.on_delete == b.on_delete
        &&& a.on_update == b.on_update
        &&& a.deferred == b.deferred
    }

    proof fn alike_to_itself(a: ForeignKeyModel) {
        <Vec<String>>::alike_to_itself(a.columns);
        <String>::alike_to_itself(a.foreign_table);
        <Vec<String>>::alike_to_itself(a.referred_columns);
    }

    proof fn alike_in_turn(a: ForeignKeyModel, b: ForeignKeyModel, c: ForeignKeyModel) {
        <Vec<String>>::alike_in_turn(a.columns, b.columns, c.columns);
        <String>::alike_in_turn(a.foreign_table, b.foreign_table, c.foreign_table);
        <Vec<String>>::alike_in_turn(a.referred_columns, b.referred_columns, c.referred_columns);
    }

    fn is_alike(&self, other: &Self) -> (result: bool) {
        self.columns.is_alike(&other.columns)
            && self.foreign_table.is_alike(&other.foreign_table)
            && self.referred_columns.is_alike(&other.referred_columns)
            && same_action(&self.on_delete, &other.on_delete)
            && same_action(&self.on_update, &other.on_update)
            && self.deferred == other.deferred
    }
}

impl Same for Policy {
    open spec fn alike(a: PolicyModel, b: PolicyModel) -> bool {
        &&& <String>::alike(a.name, b.name)
        &&& <String>::alike(a.command, b.command)
        &&& <Vec<String>>::alike(a.roles, b.roles)
        &&& a.permissive == b.permissive
        &&& <Option<Datum>>::alike(a.using, b.using)
        &&& <Option<Datum>>::alike(a.check, b.check)
    }

    proof fn alike_to_itself(a: PolicyModel) {
        <String>::alike_to_itself(a.name);
        <String>::alike_to_itself(a.command);
        <Vec<String>>::alike_to_itself(a.roles);
        <Option<Datum>>::alike_to_itself(a.using);
        <Option<Datum>>::alike_to_itself(a.check);
    }

    proof fn alike_in_turn(a: PolicyModel, b: PolicyModel, c: PolicyModel) {
        <String>::alike_in_turn(a.name, b.name, c.name);
        <String>::alike_in_turn(a.command, b.command, c.command);
        <Vec<String>>::alike_in_turn(a.roles, b.roles, c.roles);
        <Option<Datum>>::alike_in_turn(a.using, b.using, c.using);
        <Option<Datum>>::alike_in_turn(a.check, b.check, c.check);
    }

    fn is_alike(&self, other: &Self) -> (result: bool) {
        self.name.is_alike(&other.name)
            && self.command.is_alike(&other.command)
            && self.roles.is_alike(&other.roles)
            && self.permissive == other.permissive
            && self.using.is_alike(&other.using)
            && self.check.is_alike(&other.check)
    }
}

impl Same for Table {
    open spec fn alike(a: TableModel, b: TableModel) -> bool {
        &&& a.id == b.id
        &&& <String>::alike(a.name, b.name)
        &&& <Vec<Column>>::alike(a.columns, b.columns)
        &&& <Vec<String>>::alike(a.primary_key, b.primary_key)
        &&& <Vec<Vec<String>>>::alike(a.unique, b.unique)
        &&& <OrdMap<Vec<String>, ()>>::alike(a.deferred_unique, b.deferred_unique)
        &&& <Vec<ForeignKey>>::alike(a.foreign_keys, b.foreign_keys)
        &&& <Vec<Datum>>::alike(a.checks, b.checks)
        &&& a.rls_enabled == b.rls_enabled
        &&& <Vec<Policy>>::alike(a.policies, b.policies)
        &&& <OrdMap<u64, Row>>::alike(a.rows, b.rows)
        &&& a.next_row_id == b.next_row_id
    }

    proof fn alike_to_itself(a: TableModel) {
        <String>::alike_to_itself(a.name);
        <Vec<Column>>::alike_to_itself(a.columns);
        <Vec<String>>::alike_to_itself(a.primary_key);
        <Vec<Vec<String>>>::alike_to_itself(a.unique);
        <OrdMap<Vec<String>, ()>>::alike_to_itself(a.deferred_unique);
        <Vec<ForeignKey>>::alike_to_itself(a.foreign_keys);
        <Vec<Datum>>::alike_to_itself(a.checks);
        <Vec<Policy>>::alike_to_itself(a.policies);
        <OrdMap<u64, Row>>::alike_to_itself(a.rows);
    }

    proof fn alike_in_turn(a: TableModel, b: TableModel, c: TableModel) {
        <String>::alike_in_turn(a.name, b.name, c.name);
        <Vec<Column>>::alike_in_turn(a.columns, b.columns, c.columns);
        <Vec<String>>::alike_in_turn(a.primary_key, b.primary_key, c.primary_key);
        <Vec<Vec<String>>>::alike_in_turn(a.unique, b.unique, c.unique);
        <OrdMap<Vec<String>, ()>>::alike_in_turn(a.deferred_unique, b.deferred_unique, c.deferred_unique);
        <Vec<ForeignKey>>::alike_in_turn(a.foreign_keys, b.foreign_keys, c.foreign_keys);
        <Vec<Datum>>::alike_in_turn(a.checks, b.checks, c.checks);
        <Vec<Policy>>::alike_in_turn(a.policies, b.policies, c.policies);
        <OrdMap<u64, Row>>::alike_in_turn(a.rows, b.rows, c.rows);
    }

    fn is_alike(&self, other: &Self) -> (result: bool) {
        self.id == other.id
            && self.name.is_alike(&other.name)
            && self.columns.is_alike(&other.columns)
            && self.primary_key.is_alike(&other.primary_key)
            && self.unique.is_alike(&other.unique)
            && self.deferred_unique.is_alike(&other.deferred_unique)
            && self.foreign_keys.is_alike(&other.foreign_keys)
            && self.checks.is_alike(&other.checks)
            && self.rls_enabled == other.rls_enabled
            && self.policies.is_alike(&other.policies)
            && self.rows.is_alike(&other.rows)
            && self.next_row_id == other.next_row_id
    }
}

impl Same for crate::views::View {
    open spec fn alike(a: ViewModel, b: ViewModel) -> bool {
        &&& <String>::alike(a.sql, b.sql)
        &&& a.materialized == b.materialized
    }

    proof fn alike_to_itself(a: ViewModel) {
        <String>::alike_to_itself(a.sql);
    }

    proof fn alike_in_turn(a: ViewModel, b: ViewModel, c: ViewModel) {
        <String>::alike_in_turn(a.sql, b.sql, c.sql);
    }

    fn is_alike(&self, other: &Self) -> (result: bool) {
        self.sql.is_alike(&other.sql)
            && self.materialized == other.materialized
    }
}

impl Same for FunctionParameter {
    open spec fn alike(a: ParameterModel, b: ParameterModel) -> bool {
        &&& <String>::alike(a.name, b.name)
        &&& <String>::alike(a.data_type, b.data_type)
        &&& <Option<Datum>>::alike(a.default, b.default)
    }

    proof fn alike_to_itself(a: ParameterModel) {
        <String>::alike_to_itself(a.name);
        <String>::alike_to_itself(a.data_type);
        <Option<Datum>>::alike_to_itself(a.default);
    }

    proof fn alike_in_turn(a: ParameterModel, b: ParameterModel, c: ParameterModel) {
        <String>::alike_in_turn(a.name, b.name, c.name);
        <String>::alike_in_turn(a.data_type, b.data_type, c.data_type);
        <Option<Datum>>::alike_in_turn(a.default, b.default, c.default);
    }

    fn is_alike(&self, other: &Self) -> (result: bool) {
        self.name.is_alike(&other.name)
            && self.data_type.is_alike(&other.data_type)
            && self.default.is_alike(&other.default)
    }
}

impl Same for SqlFunction {
    open spec fn alike(a: FunctionModel, b: FunctionModel) -> bool {
        &&& <String>::alike(a.name, b.name)
        &&& <Vec<FunctionParameter>>::alike(a.parameters, b.parameters)
        &&& <FunctionReturn>::alike(a.return_kind, b.return_kind)
        &&& <String>::alike(a.body, b.body)
        &&& a.security_definer == b.security_definer
        &&& <Option<AuthContext>>::alike(a.definer_context, b.definer_context)
    }

    proof fn alike_to_itself(a: FunctionModel) {
        <String>::alike_to_itself(a.name);
        <Vec<FunctionParameter>>::alike_to_itself(a.parameters);
        <FunctionReturn>::alike_to_itself(a.return_kind);
        <String>::alike_to_itself(a.body);
        <Option<AuthContext>>::alike_to_itself(a.definer_context);
    }

    proof fn alike_in_turn(a: FunctionModel, b: FunctionModel, c: FunctionModel) {
        <String>::alike_in_turn(a.name, b.name, c.name);
        <Vec<FunctionParameter>>::alike_in_turn(a.parameters, b.parameters, c.parameters);
        <FunctionReturn>::alike_in_turn(a.return_kind, b.return_kind, c.return_kind);
        <String>::alike_in_turn(a.body, b.body, c.body);
        <Option<AuthContext>>::alike_in_turn(a.definer_context, b.definer_context, c.definer_context);
    }

    fn is_alike(&self, other: &Self) -> (result: bool) {
        self.name.is_alike(&other.name)
            && self.parameters.is_alike(&other.parameters)
            && self.return_kind.is_alike(&other.return_kind)
            && self.body.is_alike(&other.body)
            && self.security_definer == other.security_definer
            && self.definer_context.is_alike(&other.definer_context)
    }
}

impl Same for Database {
    open spec fn alike(a: DatabaseModel, b: DatabaseModel) -> bool {
        &&& <OrdMap<String, Table>>::alike(a.catalog, b.catalog)
        &&& <OrdMap<String, crate::views::View>>::alike(a.views, b.views)
        &&& <OrdMap<String, SqlFunction>>::alike(a.functions, b.functions)
        &&& <OrdMap<String, ()>>::alike(a.migrations, b.migrations)
        &&& a.schema_version == b.schema_version
        &&& a.next_object_id == b.next_object_id
    }

    proof fn alike_to_itself(a: DatabaseModel) {
        <OrdMap<String, Table>>::alike_to_itself(a.catalog);
        <OrdMap<String, crate::views::View>>::alike_to_itself(a.views);
        <OrdMap<String, SqlFunction>>::alike_to_itself(a.functions);
        <OrdMap<String, ()>>::alike_to_itself(a.migrations);
    }

    proof fn alike_in_turn(a: DatabaseModel, b: DatabaseModel, c: DatabaseModel) {
        <OrdMap<String, Table>>::alike_in_turn(a.catalog, b.catalog, c.catalog);
        <OrdMap<String, crate::views::View>>::alike_in_turn(a.views, b.views, c.views);
        <OrdMap<String, SqlFunction>>::alike_in_turn(a.functions, b.functions, c.functions);
        <OrdMap<String, ()>>::alike_in_turn(a.migrations, b.migrations, c.migrations);
    }

    fn is_alike(&self, other: &Self) -> (result: bool) {
        self.catalog.is_alike(&other.catalog)
            && self.views.is_alike(&other.views)
            && self.functions.is_alike(&other.functions)
            && self.migrations.is_alike(&other.migrations)
            && self.schema_version == other.schema_version
            && self.next_object_id == other.next_object_id
    }
}

} // verus!
