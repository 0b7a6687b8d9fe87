//! JSON with its fields in a chosen order.

use vstd::prelude::*;
use crate::ast::{json_of, json_text_of, or_nothing};
use crate::json::{Datum, Json, Num};
use crate::ordmap::{put, sorted};
use crate::outside::{expr_written, outside_json};

verus! {

/// A JSON value whose fields have a chosen order, with expressions as their own kind of leaf.
pub enum Layout {
    /// A plain value; the fields inside it are in the order of their names.
    Leaf(Datum),
    /// An expression, written as its syntax tree.
    Expression(Datum),
    Fields(Vec<(String, Layout)>),
    List(Vec<Layout>),
}

/// [`Layout`] in specifications.
pub enum LayoutModel {
    Leaf(Json),
    Expression(Json),
    Fields(Seq<(Seq<char>, LayoutModel)>),
    List(Seq<LayoutModel>),
}

/// What a layout stands for.
pub open spec fn laid_out(layout: Layout) -> LayoutModel
    decreases layout,
{
    match layout {
        Layout::Leaf(value) => LayoutModel::Leaf(value@),
        Layout::Expression(value) => LayoutModel::Expression(value@),
        Layout::Fields(fields) => LayoutModel::Fields(
            Seq::new(
                fields@.len(),
                |i: int|
                    if 0 <= i < fields@.len() {
                        (fields@[i].0@, laid_out(fields@[i].1))
                    } else {
                        (Seq::empty(), LayoutModel::List(Seq::empty()))
                    },
            ),
        ),
        Layout::List(list) => LayoutModel::List(
            Seq::new(
                list@.len(),
                |i: int|
                    if 0 <= i < list@.len() {
                        laid_out(list@[i])
                    } else {
                        LayoutModel::List(Seq::empty())
                    },
            ),
        ),
    }
}

impl View for Layout {
    type V = LayoutModel;

    open spec fn view(&self) -> LayoutModel {
        laid_out(*self)
    }
}

impl DeepView for Layout {
    type V = LayoutModel;

    open spec fn deep_view(&self) -> LayoutModel {
        laid_out(*self)
    }
}

/// A layout of fields stands for the deep view of its list.
pub broadcast proof fn fields_view(fields: Vec<(String, Layout)>)
    ensures
        #[trigger] laid_out(Layout::Fields(fields)) == LayoutModel::Fields(fields.deep_view()),
{
    assert(laid_out(Layout::Fields(fields))->Fields_0 =~= fields.deep_view());
}

/// A layout of a list stands for the deep view of its list.
pub broadcast proof fn list_view(list: Vec<Layout>)
    ensures
        #[trigger] laid_out(Layout::List(list)) == LayoutModel::List(list.deep_view()),
{
    assert(laid_out(Layout::List(list))->List_0 =~= list.deep_view());
}

pub broadcast group group_layout_views {
    fields_view,
    list_view,
}

// ---------------------------------------------------------------------------------------------
// Text and value
// ---------------------------------------------------------------------------------------------

/// The separator before an item: none before the first.
pub open spec fn comma(i: int) -> Seq<char> {
    if i == 0 {
        Seq::empty()
    } else {
        ","@
    }
}

/// The compact JSON text of a layout.
pub open spec fn layout_text(layout: LayoutModel) -> Seq<char>
    decreases layout,
{
    match layout {
        LayoutModel::Leaf(value) => json_text_of(value),
        LayoutModel::Expression(tree) => or_nothing(expr_written(outside_json(tree))),
        LayoutModel::Fields(fields) => "{"@ + fields_text(fields) + "}"@,
        LayoutModel::List(list) => "["@ + list_text(list) + "]"@,
    }
}

/// The text of fields, separated by commas.
pub open spec fn fields_text(fields: Seq<(Seq<char>, LayoutModel)>) -> Seq<char>
    decreases fields,
{
    if fields.len() == 0 {
        Seq::empty()
    } else {
        fields_text(fields.drop_last()) + comma(fields.len() - 1) + json_text_of(
            Json::String(fields.last().0),
        ) + ":"@ + layout_text(fields.last().1)
    }
}

/// The text of items, separated by commas.
pub open spec fn list_text(list: Seq<LayoutModel>) -> Seq<char>
    decreases list,
{
    if list.len() == 0 {
        Seq::empty()
    } else {
        list_text(list.drop_last()) + comma(list.len() - 1) + layout_text(list.last())
    }
}

/// The JSON value that a layout writes.
pub open spec fn layout_value(layout: LayoutModel) -> Json
    decreases layout,
{
    match layout {
        LayoutModel::Leaf(value) => value,
        LayoutModel::Expression(tree) => tree,
        LayoutModel::Fields(fields) => Json::Object(fields_value(fields)),
        LayoutModel::List(list) => Json::Array(list_value(list)),
    }
}

/// The entries that fields write.
pub open spec fn fields_value(fields: Seq<(Seq<char>, LayoutModel)>) -> Seq<(Seq<char>, Json)>
    decreases fields,
{
    if fields.len() == 0 {
        Seq::empty()
    } else {
        put(fields_value(fields.drop_last()), fields.last().0, layout_value(fields.last().1))
    }
}

/// The items that a list writes.
pub open spec fn list_value(list: Seq<LayoutModel>) -> Seq<Json>
    decreases list,
{
    if list.len() == 0 {
        Seq::empty()
    } else {
        list_value(list.drop_last()).push(layout_value(list.last()))
    }
}

// ---------------------------------------------------------------------------------------------
// What reads back
// ---------------------------------------------------------------------------------------------

/// How deep JSON may nest that is sure to be read back.
pub open spec fn read_nesting() -> nat {
    100
}

/// The name that the JSON reader takes, as the first of an object, for a mark of its own: the object is
/// then read as the JSON in its text.
pub const RAW_MARK: &'static str = "$serde_json::private::RawValue";

/// The mark of the reader is longer than any name that the library writes.
pub proof fn mark_is_long()
    ensures
        RAW_MARK@.len() == 30,
{
    reveal_strlit("$serde_json::private::RawValue");
}

/// Whether JSON text keeps a value whole: it nests no deeper than `depth`, its objects have their
/// fields in order and do not begin with the mark of the reader, and its numbers are 64-bit integers. A
/// fractional number may be read as the next one.
pub open spec fn keeps(value: Json, depth: nat) -> bool
    decreases value,
{
    match value {
        Json::Number(Num::Int(_)) => true,
        Json::Number(Num::Big(n)) => n > i64::MAX,
        Json::Number(Num::Real(_)) => false,
        Json::Array(items) => depth > 0 && (forall|i: int|
            0 <= i < items.len() ==> keeps(#[trigger] items[i], (depth - 1) as nat)),
        Json::Object(entries) => depth > 0 && sorted(entries) && (entries.len() > 0 ==> entries[0].0 != RAW_MARK@) && (
        forall|i: int|
            0 <= i < entries.len() ==> keeps((#[trigger] entries[i]).1, (depth - 1) as nat)),
        _ => true,
    }
}

/// Whether JSON text keeps a layout whole: what it holds is kept, and an expression alone reads as its
/// own tree.
pub open spec fn keeps_layout(layout: LayoutModel, depth: nat) -> bool
    decreases layout,
{
    match layout {
        LayoutModel::Leaf(value) => keeps(value, depth),
        LayoutModel::Expression(tree) => keeps(tree, depth) && json_of(
            or_nothing(expr_written(outside_json(tree))),
        ) == Ok::<Json, Seq<char>>(tree),
        LayoutModel::Fields(fields) => depth > 0 && (fields.len() > 0 ==> fields[0].0 != RAW_MARK@) && (forall|i: int|
            0 <= i < fields.len() ==> keeps_layout((#[trigger] fields[i]).1, (depth - 1) as nat)),
        LayoutModel::List(list) => depth > 0 && (forall|i: int|
            0 <= i < list.len() ==> keeps_layout(#[trigger] list[i], (depth - 1) as nat)),
    }
}

} // verus!
