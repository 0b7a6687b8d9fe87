//! The canonical JSON text of a state.

use vstd::prelude::*;
use crate::ast::{json_text, json_text_of, Expr};
use crate::catalog::{
    AuthContext, AuthModel, Column, ColumnModel, Database, DatabaseModel, ForeignKey, ForeignKeyModel,
    FunctionModel, FunctionParameter, FunctionReturn, Identity, ParameterModel, Policy, PolicyModel,
    ReferentialAction, ReturnModel, Row, RowModel, SqlFunction, StableId, Table, TableModel,
};
use crate::json::{Datum, Json, Num, Number};
use crate::layout::{fields_text, layout_text, list_text, Layout, LayoutModel};
use crate::ordmap::OrdMap;
use crate::outside::{outside_of, write_expr};
use crate::text::{decimal, decimal_text, nothing, owned};
use crate::views::ViewModel;

verus! {

broadcast use crate::layout::group_layout_views;

// ---------------------------------------------------------------------------------------------
// Writing a layout
// ---------------------------------------------------------------------------------------------

fn write_leaf(value: &Datum) -> (result: String)
    ensures
        result@ == json_text_of(value@),
{
    json_text(value)
}

fn write_expression(tree: &Datum) -> (result: String)
    ensures
        result@ == layout_text(LayoutModel::Expression(tree@)),
{
    match write_expr(outside_of(tree)) {
        Some(characters) => characters,
        None => nothing(),
    }
}

/// The compact JSON text of a layout.
pub fn write_layout(layout: &Layout) -> (result: String)
    ensures
        result@ == layout_text(layout@),
    decreases layout,
{
    match layout {
        Layout::Leaf(value) => write_leaf(value),
        Layout::Expression(tree) => write_expression(tree),
        Layout::Fields(fields) => {
            let mut result = owned("{");
            let mut i: usize = 0;
            let ghost model = fields.deep_view();
            assert(layout@ == LayoutModel::Fields(model));
            assert(model.take(0) =~= Seq::<(Seq<char>, LayoutModel)>::empty());
            assert("{"@ + Seq::<char>::empty() =~= "{"@);
            while i < fields.len()
                invariant
                    i <= fields.len(),
                    layout matches Layout::Fields(inner) && inner == fields,
                    model == fields.deep_view(),
                    result@ == "{"@ + fields_text(model.take(i as int)),
                decreases fields.len() - i,
            {
                let ghost before = result@;
                assert(model[i as int] == (fields[i as int].0@, fields[i as int].1@));
                if i > 0 {
                    result.append(",");
                }
                let name = write_leaf(&Datum::String(fields[i].0.clone()));
                let inner = write_layout(&fields[i].1);
                result.append(name.as_str());
                result.append(":");
                result.append(inner.as_str());
                proof {
                    let next = model.take(i + 1);
                    assert(next.drop_last() =~= model.take(i as int));
                    assert(next.last() == model[i as int]);
                    assert(result@ =~= "{"@ + fields_text(next));
                }
                i += 1;
            }
            assert(model.take(fields@.len() as int) =~= model);
            result.append("}");
            result
        },
        Layout::List(list) => {
            let mut result = owned("[");
            let mut i: usize = 0;
            let ghost model = list.deep_view();
            assert(layout@ == LayoutModel::List(model));
            assert(model.take(0) =~= Seq::<LayoutModel>::empty());
            assert("["@ + Seq::<char>::empty() =~= "["@);
            while i < list.len()
                invariant
                    i <= list.len(),
                    layout matches Layout::List(inner) && inner == list,
                    model == list.deep_view(),
                    result@ == "["@ + list_text(model.take(i as int)),
                decreases list.len() - i,
            {
                assert(model[i as int] == list[i as int]@);
                if i > 0 {
                    result.append(",");
                }
                let inner = write_layout(&list[i]);
                result.append(inner.as_str());
                proof {
                    let next = model.take(i + 1);
                    assert(next.drop_last() =~= model.take(i as int));
                    assert(next.last() == model[i as int]);
                    assert(result@ =~= "["@ + list_text(next));
                }
                i += 1;
            }
            assert(model.take(list@.len() as int) =~= model);
            result.append("]");
            result
        },
    }
}

// ---------------------------------------------------------------------------------------------
// Layouts of types
// ---------------------------------------------------------------------------------------------

/// Types with a canonical layout.
pub trait Encode: DeepView {
    /// The layout of a value.
    spec fn layout_of(value: Self::V) -> LayoutModel;

    /// The layout of a value.
    fn layout(&self) -> (result: Layout)
        ensures
            result@ == Self::layout_of(self.deep_view()),
    ;
}

/// An unsigned number as JSON.
pub open spec fn unsigned_json(n: u64) -> Json {
    if n <= i64::MAX {
        Json::Number(Num::Int(n as i64))
    } else {
        Json::Number(Num::Big(n))
    }
}

/// An unsigned number as JSON.
pub fn unsigned(n: u64) -> (result: Datum)
    ensures
        result@ == unsigned_json(n),
{
    if n <= 9223372036854775807u64 {
        Datum::integer(n as i64)
    } else {
        Datum::Number(Number::Big(n))
    }
}

impl Encode for u64 {
    open spec fn layout_of(value: u64) -> LayoutModel {
        LayoutModel::Leaf(unsigned_json(value))
    }

    fn layout(&self) -> (result: Layout) {
        Layout::Leaf(unsigned(*self))
    }
}

impl Encode for bool {
    open spec fn layout_of(value: bool) -> LayoutModel {
        LayoutModel::Leaf(Json::Bool(value))
    }

    fn layout(&self) -> (result: Layout) {
        Layout::Leaf(Datum::Bool(*self))
    }
}

impl Encode for String {
    open spec fn layout_of(value: Seq<char>) -> LayoutModel {
        LayoutModel::Leaf(Json::String(value))
    }

    fn layout(&self) -> (result: Layout) {
        Layout::Leaf(Datum::String(self.clone()))
    }
}

impl Encode for Datum {
    open spec fn layout_of(value: Json) -> LayoutModel {
        LayoutModel::Leaf(value)
    }

    fn layout(&self) -> (result: Layout) {
        Layout::Leaf(self.copied())
    }
}

impl<T: Encode> Encode for Vec<T> {
    open spec fn layout_of(value: Seq<T::V>) -> LayoutModel {
        LayoutModel::List(Seq::new(value.len(), |i: int| T::layout_of(value[i])))
    }

    fn layout(&self) -> (result: Layout) {
        let mut list: Vec<Layout> = Vec::new();
        let mut i: usize = 0;
        while i < self.len()
            invariant
                i <= self.len(),
                list.len() == i,
                forall|j: int| 0 <= j < i ==> (#[trigger] list[j])@ == T::layout_of(self[j].deep_view()),
            decreases self.len() - i,
        {
            list.push(self[i].layout());
            i += 1;
        }
        assert(list.deep_view() =~= Self::layout_of(self.deep_view())->List_0);
        Layout::List(list)
    }
}

impl<T: Encode> Encode for Option<T> {
    open spec fn layout_of(value: Option<T::V>) -> LayoutModel {
        match value {
            Some(inner) => T::layout_of(inner),
            None => LayoutModel::Leaf(Json::Null),
        }
    }

    fn layout(&self) -> (result: Layout) {
        match self {
            Some(inner) => inner.layout(),
            None => Layout::Leaf(Datum::Null),
        }
    }
}

impl<A: Encode, B: Encode> Encode for (A, B) {
    open spec fn layout_of(value: (A::V, B::V)) -> LayoutModel {
        LayoutModel::List(seq![A::layout_of(value.0), B::layout_of(value.1)])
    }

    fn layout(&self) -> (result: Layout) {
        let mut list: Vec<Layout> = Vec::new();
        list.push(self.0.layout());
        list.push(self.1.layout());
        assert(list.deep_view() =~= Self::layout_of(self.deep_view())->List_0);
        Layout::List(list)
    }
}

impl<T: Encode> Encode for OrdMap<String, T> {
    open spec fn layout_of(value: Seq<(Seq<char>, T::V)>) -> LayoutModel {
        LayoutModel::Fields(Seq::new(value.len(), |i: int| (value[i].0, T::layout_of(value[i].1))))
    }

    fn layout(&self) -> (result: Layout) {
        let mut fields: Vec<(String, Layout)> = Vec::new();
        let mut i: usize = 0;
        while i < self.len()
            invariant
                i <= self@.len(),
                fields.len() == i,
                forall|j: int|
                    0 <= j < i ==> (#[trigger] fields[j]).0@ == self@[j].0 && fields[j].1@ == T::layout_of(
                        self@[j].1,
                    ),
            decreases self@.len() - i,
        {
            fields.push((self.key_at(i).clone(), self.value_at(i).layout()));
            i += 1;
        }
        assert(fields.deep_view() =~= Self::layout_of(self.deep_view())->Fields_0);
        Layout::Fields(fields)
    }
}

/// The layout of a set of names.
pub open spec fn name_set_layout(set: Seq<(Seq<char>, ())>) -> LayoutModel {
    LayoutModel::List(Seq::new(set.len(), |i: int| LayoutModel::Leaf(Json::String(set[i].0))))
}

fn lay_name_set(set: &OrdMap<String, ()>) -> (result: Layout)
    ensures
        result@ == name_set_layout(set@),
{
    let mut list: Vec<Layout> = Vec::new();
    let mut i: usize = 0;
    while i < set.len()
        invariant
            i <= set@.len(),
            list.len() == i,
            forall|j: int|
                0 <= j < i ==> (#[trigger] list[j])@ == LayoutModel::Leaf(Json::String(set@[j].0)),
        decreases set@.len() - i,
    {
        list.push(set.key_at(i).layout());
        i += 1;
    }
    assert(list.deep_view() =~= name_set_layout(set@)->List_0);
    Layout::List(list)
}

/// The layout of a set of keys.
pub open spec fn key_set_layout(set: Seq<(Seq<Seq<char>>, ())>) -> LayoutModel {
    LayoutModel::List(Seq::new(set.len(), |i: int| <Vec<String>>::layout_of(set[i].0)))
}

fn lay_key_set(set: &OrdMap<Vec<String>, ()>) -> (result: Layout)
    ensures
        result@ == key_set_layout(set@),
{
    let mut list: Vec<Layout> = Vec::new();
    let mut i: usize = 0;
    while i < set.len()
        invariant
            i <= set@.len(),
            list.len() == i,
            forall|j: int| 0 <= j < i ==> (#[trigger] list[j])@ == <Vec<String>>::layout_of(set@[j].0),
        decreases set@.len() - i,
    {
        list.push(set.key_at(i).layout());
        i += 1;
    }
    assert(list.deep_view() =~= key_set_layout(set@)->List_0);
    Layout::List(list)
}

/// The layout of rows, each under the decimal text of its identity.
pub open spec fn rows_layout(rows: Seq<(u64, RowModel)>) -> LayoutModel {
    LayoutModel::Fields(
        Seq::new(rows.len(), |i: int| (decimal(rows[i].0 as nat), Row::layout_of(rows[i].1))),
    )
}

fn lay_rows(rows: &OrdMap<StableId, Row>) -> (result: Layout)
    ensures
        result@ == rows_layout(rows@),
{
    let mut fields: Vec<(String, Layout)> = Vec::new();
    let mut i: usize = 0;
    while i < rows.len()
        invariant
            i <= rows@.len(),
            fields.len() == i,
            forall|j: int|
                0 <= j < i ==> (#[trigger] fields[j]).0@ == decimal(rows@[j].0 as nat) && fields[j].1@
                    == Row::layout_of(rows@[j].1),
        decreases rows@.len() - i,
    {
        fields.push((decimal_text(*rows.key_at(i)), rows.value_at(i).layout()));
        i += 1;
    }
    assert(fields.deep_view() =~= rows_layout(rows@)->Fields_0);
    Layout::Fields(fields)
}

/// The layout of an optional expression.
pub open spec fn expr_layout(expr: Option<Json>) -> LayoutModel {
    match expr {
        Some(tree) => LayoutModel::Expression(tree),
        None => LayoutModel::Leaf(Json::Null),
    }
}

fn lay_expr(expr: &Option<Expr>) -> (result: Layout)
    ensures
        result@ == expr_layout(expr.deep_view()),
{
    match expr {
        Some(tree) => Layout::Expression(tree.copied()),
        None => Layout::Leaf(Datum::Null),
    }
}

/// The layout of a list of expressions.
pub open spec fn exprs_layout(exprs: Seq<Json>) -> LayoutModel {
    LayoutModel::List(Seq::new(exprs.len(), |i: int| LayoutModel::Expression(exprs[i])))
}

fn lay_exprs(exprs: &Vec<Expr>) -> (result: Layout)
    ensures
        result@ == exprs_layout(exprs.deep_view()),
{
    let mut list: Vec<Layout> = Vec::new();
    let mut i: usize = 0;
    while i < exprs.len()
        invariant
            i <= exprs.len(),
            list.len() == i,
            forall|j: int| 0 <= j < i ==> (#[trigger] list[j])@ == LayoutModel::Expression(exprs[j]@),
        decreases exprs.len() - i,
    {
        list.push(Layout::Expression(exprs[i].copied()));
        i += 1;
    }
    assert(list.deep_view() =~= exprs_layout(exprs.deep_view())->List_0);
    Layout::List(list)
}

/// A signed number as a layout.
pub open spec fn signed_layout(n: i64) -> LayoutModel {
    LayoutModel::Leaf(Json::Number(Num::Int(n)))
}

fn lay_signed(n: i64) -> (result: Layout)
    ensures
        result@ == signed_layout(n),
{
    Layout::Leaf(Datum::integer(n))
}

/// The layout of a name.
pub open spec fn name_layout(name: Seq<char>) -> LayoutModel {
    LayoutModel::Leaf(Json::String(name))
}

fn lay_name(name: &str) -> (result: Layout)
    ensures
        result@ == name_layout(name@),
{
    Layout::Leaf(Datum::string(name))
}

/// The name of a referential action.
pub open spec fn action_name(action: ReferentialAction) -> Seq<char> {
    match action {
        ReferentialAction::Restrict => "Restrict"@,
        ReferentialAction::Cascade => "Cascade"@,
        ReferentialAction::SetNull => "SetNull"@,
        ReferentialAction::NoAction => "NoAction"@,
        ReferentialAction::SetDefault => "SetDefault"@,
    }
}

/// The layout of an optional referential action.
pub open spec fn action_layout(action: Option<ReferentialAction>) -> LayoutModel {
    match action {
        Some(known) => name_layout(action_name(known)),
        None => LayoutModel::Leaf(Json::Null),
    }
}

fn lay_action(action: Option<ReferentialAction>) -> (result: Layout)
    ensures
        result@ == action_layout(action),
{
    match action {
        None => Layout::Leaf(Datum::Null),
        Some(ReferentialAction::Restrict) => lay_name("Restrict"),
        Some(ReferentialAction::Cascade) => lay_name("Cascade"),
        Some(ReferentialAction::SetNull) => lay_name("SetNull"),
        Some(ReferentialAction::NoAction) => lay_name("NoAction"),
        Some(ReferentialAction::SetDefault) => lay_name("SetDefault"),
    }
}

impl Encode for Identity {
    open spec fn layout_of(value: Identity) -> LayoutModel {
        LayoutModel::Fields(
            seq![
                ("always"@, <bool>::layout_of(value.always)),
                ("start"@, signed_layout(value.start)),
                ("increment"@, signed_layout(value.increment)),
            ],
        )
    }

    fn layout(&self) -> (result: Layout) {
        let mut fields: Vec<(String, Layout)> = Vec::new();
        fields.push((owned("always"), self.always.layout()));
        fields.push((owned("start"), lay_signed(self.start)));
        fields.push((owned("increment"), lay_signed(self.increment)));
        assert(fields.deep_view() =~= Self::layout_of(self.deep_view())->Fields_0);
        Layout::Fields(fields)
    }
}

impl Encode for AuthContext {
    open spec fn layout_of(value: AuthModel) -> LayoutModel {
        LayoutModel::Fields(
            seq![
                ("role"@, name_layout(value.role)),
                ("uid"@, <Option<String>>::layout_of(value.uid)),
                ("jwt_claims"@, <Datum>::layout_of(value.jwt_claims)),
                ("privileged"@, <bool>::layout_of(value.privileged)),
            ],
        )
    }

    fn layout(&self) -> (result: Layout) {
        let mut fields: Vec<(String, Layout)> = Vec::new();
        fields.push((owned("role"), lay_name(self.role.as_str())));
        fields.push((owned("uid"), self.uid.layout()));
        fields.push((owned("jwt_claims"), self.jwt_claims.layout()));
        fields.push((owned("privileged"), self.privileged.layout()));
        assert(fields.deep_view() =~= Self::layout_of(self.deep_view())->Fields_0);
        Layout::Fields(fields)
    }
}

impl Encode for Column {
    open spec fn layout_of(value: ColumnModel) -> LayoutModel {
        LayoutModel::Fields(
            seq![
                ("id"@, <u64>::layout_of(value.id)),
                ("name"@, name_layout(value.name)),
                ("data_type"@, name_layout(value.data_type)),
                ("nullable"@, <bool>::layout_of(value.nullable)),
                ("default"@, expr_layout(value.default)),
                ("identity"@, <Option<Identity>>::layout_of(value.identity)),
                ("generated"@, expr_layout(value.generated)),
            ],
        )
    }

    fn layout(&self) -> (result: Layout) {
        let mut fields: Vec<(String, Layout)> = Vec::new();
        fields.push((owned("id"), self.id.layout()));
        fields.push((owned("name"), lay_name(self.name.as_str())));
        fields.push((owned("data_type"), lay_name(self.data_type.as_str())));
        fields.push((owned("nullable"), self.nullable.layout()));
        fields.push((owned("default"), lay_expr(&self.default)));
        fields.push((owned("identity"), self.identity.layout()));
        fields.push((owned("generated"), lay_expr(&self.generated)));
        assert(fields.deep_view() =~= Self::layout_of(self.deep_view())->Fields_0);
        Layout::Fields(fields)
    }
}

impl Encode for Row {
    open spec fn layout_of(value: RowModel) -> LayoutModel {
        LayoutModel::Fields(
            seq![
                ("id"@, <u64>::layout_of(value.id)),
                ("version"@, <u64>::layout_of(value.version)),
                ("values"@, <OrdMap<String, Datum>>::layout_of(value.values)),
            ],
        )
    }

    fn layout(&self) -> (result: Layout) {
        let mut fields: Vec<(String, Layout)> = Vec::new();
        fields.push((owned("id"), self.id.layout()));
        fields.push((owned("version"), self.version.layout()));
        fields.push((owned("values"), self.values.layout()));
        assert(fields.deep_view() =~= Self::layout_of(self.deep_view())->Fields_0);
        Layout::Fields(fields)
    }
}

impl Encode for ForeignKey {
    open spec fn layout_of(value: ForeignKeyModel) -> LayoutModel {
        LayoutModel::Fields(
            seq![
                ("columns"@, <Vec<String>>::layout_of(value.columns)),
                ("foreign_table"@, name_layout(value.foreign_table)),
                ("referred_columns"@, <Vec<String>>::layout_of(value.referred_columns)),
                ("on_delete"@, action_layout(value.on_delete)),
                ("on_update"@, action_layout(value.on_update)),
                ("deferred"@, <bool>::layout_of(value.deferred)),
            ],
        )
    }

    fn layout(&self) -> (result: Layout) {
        let mut fields: Vec<(String, Layout)> = Vec::new();
        fields.push((owned("columns"), self.columns.layout()));
        fields.push((owned("foreign_table"), lay_name(self.foreign_table.as_str())));
        fields.push((owned("referred_columns"), self.referred_columns.layout()));
        fields.push((owned("on_delete"), lay_action(self.on_delete)));
        fields.push((owned("on_update"), lay_action(self.on_update)));
        fields.push((owned("deferred"), self.deferred.layout()));
        assert(fields.deep_view() =~= Self::layout_of(self.deep_view())->Fields_0);
        Layout::Fields(fields)
    }
}

impl Encode for Policy {
    open spec fn layout_of(value: PolicyModel) -> LayoutModel {
        LayoutModel::Fields(
            seq![
                ("name"@, name_layout(value.name)),
                ("command"@, name_layout(value.command)),
                ("roles"@, <Vec<String>>::layout_of(value.roles)),
                ("permissive"@, <bool>::layout_of(value.permissive)),
                ("using"@, expr_layout(value.using)),
                ("check"@, expr_layout(value.check)),
            ],
        )
    }

    fn layout(&self) -> (result: Layout) {
        let mut fields: Vec<(String, Layout)> = Vec::new();
        fields.push((owned("name"), lay_name(self.name.as_str())));
        fields.push((owned("command"), lay_name(self.command.as_str())));
        fields.push((owned("roles"), self.roles.layout()));
        fields.push((owned("permissive"), self.permissive.layout()));
        fields.push((owned("using"), lay_expr(&self.using)));
        fields.push((owned("check"), lay_expr(&self.check)));
        assert(fields.deep_view() =~= Self::layout_of(self.deep_view())->Fields_0);
        Layout::Fields(fields)
    }
}

impl Encode for Table {
    open spec fn layout_of(value: TableModel) -> LayoutModel {
        LayoutModel::Fields(
            seq![
                ("id"@, <u64>::layout_of(value.id)),
                ("name"@, name_layout(value.name)),
                ("columns"@, <Vec<Column>>::layout_of(value.columns)),
                ("primary_key"@, <Vec<String>>::layout_of(value.primary_key)),
                ("unique"@, <Vec<Vec<String>>>::layout_of(value.unique)),
                ("deferred_unique"@, key_set_layout(value.deferred_unique)),
                ("foreign_keys"@, <Vec<ForeignKey>>::layout_of(value.foreign_keys)),
                ("checks"@, exprs_layout(value.checks)),
                ("rls_enabled"@, <bool>::layout_of(value.rls_enabled)),
                ("policies"@, <Vec<Policy>>::layout_of(value.policies)),
                ("rows"@, rows_layout(value.rows)),
                ("next_row_id"@, <u64>::layout_of(value.next_row_id)),
            ],
        )
    }

    fn layout(&self) -> (result: Layout) {
        let mut fields: Vec<(String, Layout)> = Vec::new();
        fields.push((owned("id"), self.id.layout()));
        fields.push((owned("name"), lay_name(self.name.as_str())));
        fields.push((owned("columns"), self.columns.layout()));
        fields.push((owned("primary_key"), self.primary_key.layout()));
        fields.push((owned("unique"), self.unique.layout()));
        fields.push((owned("deferred_unique"), lay_key_set(&self.deferred_unique)));
        fields.push((owned("foreign_keys"), self.foreign_keys.layout()));
        fields.push((owned("checks"), lay_exprs(&self.checks)));
        fields.push((owned("rls_enabled"), self.rls_enabled.layout()));
        fields.push((owned("policies"), self.policies.layout()));
        fields.push((owned("rows"), lay_rows(&self.rows)));
        fields.push((owned("next_row_id"), self.next_row_id.layout()));
        assert(fields.deep_view() =~= Self::layout_of(self.deep_view())->Fields_0);
        Layout::Fields(fields)
    }
}

impl Encode for crate::views::View {
    open spec fn layout_of(value: ViewModel) -> LayoutModel {
        LayoutModel::Fields(
            seq![
                ("sql"@, name_layout(value.sql)),
                ("materialized"@, <bool>::layout_of(value.materialized)),
            ],
        )
    }

    fn layout(&self) -> (result: Layout) {
        let mut fields: Vec<(String, Layout)> = Vec::new();
        fields.push((owned("sql"), lay_name(self.sql.as_str())));
        fields.push((owned("materialized"), self.materialized.layout()));
        assert(fields.deep_view() =~= Self::layout_of(self.deep_view())->Fields_0);
        Layout::Fields(fields)
    }
}

impl Encode for FunctionParameter {
    open spec fn layout_of(value: ParameterModel) -> LayoutModel {
        LayoutModel::Fields(
            seq![
                ("name"@, name_layout(value.name)),
                ("data_type"@, name_layout(value.data_type)),
                ("default"@, expr_layout(value.default)),
            ],
        )
    }

    fn layout(&self) -> (result: Layout) {
        let mut fields: Vec<(String, Layout)> = Vec::new();
        fields.push((owned("name"), lay_name(self.name.as_str())));
        fields.push((owned("data_type"), lay_name(self.data_type.as_str())));
        fields.push((owned("default"), lay_expr(&self.default)));
        assert(fields.deep_view() =~= Self::layout_of(self.deep_view())->Fields_0);
        Layout::Fields(fields)
    }
}

impl Encode for SqlFunction {
    open spec fn layout_of(value: FunctionModel) -> LayoutModel {
        LayoutModel::Fields(
            seq![
                ("name"@, name_layout(value.name)),
                ("parameters"@, <Vec<FunctionParameter>>::layout_of(value.parameters)),
                ("return_kind"@, <FunctionReturn>::layout_of(value.return_kind)),
                ("body"@, name_layout(value.body)),
                ("security_definer"@, <bool>::layout_of(value.security_definer)),
                ("definer_context"@, <Option<AuthContext>>::layout_of(value.definer_context)),
            ],
        )
    }

    fn layout(&self) -> (result: Layout) {
        let mut fields: Vec<(String, Layout)> = Vec::new();
        fields.push((owned("name"), lay_name(self.name.as_str())));
        fields.push((owned("parameters"), self.parameters.layout()));
        fields.push((owned("return_kind"), self.return_kind.layout()));
        fields.push((owned("body"), lay_name(self.body.as_str())));
        fields.push((owned("security_definer"), self.security_definer.layout()));
        fields.push((owned("definer_context"), self.definer_context.layout()));
        assert(fields.deep_view() =~= Self::layout_of(self.deep_view())->Fields_0);
        Layout::Fields(fields)
    }
}

impl Encode for Database {
    open spec fn layout_of(value: DatabaseModel) -> LayoutModel {
        LayoutModel::Fields(
            seq![
                ("catalog"@, <OrdMap<String, Table>>::layout_of(value.catalog)),
                ("views"@, <OrdMap<String, crate::views::View>>::layout_of(value.views)),
                ("functions"@, <OrdMap<String, SqlFunction>>::layout_of(value.functions)),
                ("migrations"@, name_set_layout(value.migrations)),
                ("schema_version"@, <u64>::layout_of(value.schema_version)),
                ("next_object_id"@, <u64>::layout_of(value.next_object_id)),
            ],
        )
    }

    fn layout(&self) -> (result: Layout) {
        let mut fields: Vec<(String, Layout)> = Vec::new();
        fields.push((owned("catalog"), self.catalog.layout()));
        fields.push((owned("views"), self.views.layout()));
        fields.push((owned("functions"), self.functions.layout()));
        fields.push((owned("migrations"), lay_name_set(&self.migrations)));
        fields.push((owned("schema_version"), self.schema_version.layout()));
        fields.push((owned("next_object_id"), self.next_object_id.layout()));
        assert(fields.deep_view() =~= Self::layout_of(self.deep_view())->Fields_0);
        Layout::Fields(fields)
    }
}

impl Encode for FunctionReturn {
    open spec fn layout_of(value: ReturnModel) -> LayoutModel {
        match value {
            ReturnModel::Scalar(name) => LayoutModel::Fields(seq![("Scalar"@, name_layout(name))]),
            ReturnModel::SetOf(name) => LayoutModel::Fields(seq![("SetOf"@, name_layout(name))]),
            ReturnModel::Table(columns) => LayoutModel::Fields(
                seq![("Table"@, <Vec<(String, String)>>::layout_of(columns))],
            ),
            ReturnModel::Void => name_layout("Void"@),
        }
    }

    fn layout(&self) -> (result: Layout) {
        let mut fields: Vec<(String, Layout)> = Vec::new();
        match self {
            FunctionReturn::Scalar(name) => {
                fields.push((owned("Scalar"), lay_name(name.as_str())));
            },
            FunctionReturn::SetOf(name) => {
                fields.push((owned("SetOf"), lay_name(name.as_str())));
            },
            FunctionReturn::Table(columns) => {
                fields.push((owned("Table"), columns.layout()));
            },
            FunctionReturn::Void => {
                return lay_name("Void");
            },
        }
        assert(fields.deep_view() =~= Self::layout_of(self.deep_view())->Fields_0);
        Layout::Fields(fields)
    }
}

/// The canonical text of a state.
pub open spec fn database_text(database: DatabaseModel) -> Seq<char> {
    layout_text(Database::layout_of(database))
}

/// The canonical text of a state.
pub fn write_database(database: &Database) -> (result: String)
    ensures
        result@ == database_text(database.deep_view()),
{
    write_layout(&database.layout())
}

/// The layout of a cell's envelope: a version, the column's type and the value.
pub open spec fn cell_layout(data_type: Seq<char>, value: Json) -> LayoutModel {
    LayoutModel::Fields(
        seq![
            ("version"@, LayoutModel::Leaf(Json::Number(Num::Int(1)))),
            ("sql_type"@, name_layout(data_type)),
            ("value"@, LayoutModel::Leaf(value)),
        ],
    )
}

/// The canonical text of a cell.
pub open spec fn cell_text(data_type: Seq<char>, value: Json) -> Seq<char> {
    layout_text(cell_layout(data_type, value))
}

/// The canonical text of a cell.
pub fn write_cell(data_type: &str, value: &Datum) -> (result: String)
    ensures
        result@ == cell_text(data_type@, value@),
{
    let mut fields: Vec<(String, Layout)> = Vec::new();
    fields.push((owned("version"), lay_signed(1)));
    fields.push((owned("sql_type"), lay_name(data_type)));
    fields.push((owned("value"), value.layout()));
    let layout = Layout::Fields(fields);
    assert(fields.deep_view() =~= cell_layout(data_type@, value@)->Fields_0);
    write_layout(&layout)
}

} // verus!
