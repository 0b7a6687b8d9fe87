//! What a request for rows is answered: the page that it asks for, and one object where it asks for one.

use vstd::prelude::*;
use crate::alterations::left_over;
use crate::api::ApiFailure;
use crate::catalog::{AuthModel, DatabaseModel, TableModel};
use crate::embeddings::{asked_for, inner_relations_keep_rows_with_partners, lonely};
use crate::embed::RelationModel;
use crate::error::Failure;
use crate::execute::batch_executed;
use crate::gateway::{
    page_for, paged, ranged, reads, represented, selection, singular, statement_for, table_answer, table_reply_of,
    Page, TableAnswerModel, TableRequestModel,
};
use crate::json::{Json, Num};
use crate::ordmap::get;
use crate::scalar::value_checked;
use crate::text::{before_char, parsed_usize};

verus! {

// ---------------------------------------------------------------------------------------------
// Pages
// ---------------------------------------------------------------------------------------------

/// Whether rows are those of a page of others: as many as there are after the skipped ones, up to the limit,
/// in their order.
pub open spec fn page_rows(rows: Seq<Json>, page: Page, shown: Seq<Json>) -> bool {
    &&& shown.len() <= page.limit
    &&& shown.len() + page.offset <= rows.len() || shown.len() == 0
    &&& shown.len() < page.limit ==> shown.len() + page.offset >= rows.len()
    &&& forall|i: int| 0 <= i < shown.len() ==> #[trigger] shown[i] == rows[page.offset + i]
}

/// A page has the rows after those that it skips, as many as it may.
pub proof fn pages_follow_the_skipped_rows(rows: Seq<Json>, page: Page)
    ensures
        page_rows(rows, page, paged(rows, page)),
{
}

/// Whether an answer shows rows: all of them, or those of a page on a read.
pub open spec fn shows(
    request: TableRequestModel,
    answer: TableAnswerModel,
    table: TableModel,
    rows: Seq<Json>,
    page: Page,
    shown: Seq<Json>,
    caller: AuthModel,
) -> bool {
    &&& page_for(request) == Ok::<Page, ApiFailure>(page)
    &&& if reads(request.method) {
        page_rows(rows, page, shown)
    } else {
        shown == rows
    }
    &&& crate::embed::projected(
        shown,
        selection(request.params),
        request.params,
        answer.staged,
        table,
        caller,
    ) == Ok::<Seq<Json>, Failure>(answer.rows)
    &&& answer.total == rows.len() as usize && answer.offset == page.offset
}

/// The answer to a request shows the rows that its statement gives, with the fields of its select list. A
/// read shows a page of those that have all partners that the list demands, and says how many there are.
/// Where one object is asked for and shown, there is exactly one row.
pub proof fn answers_show_the_rows_of_the_statement(db: DatabaseModel, request: TableRequestModel, caller: AuthModel)
    ensures
        table_answer(db, request, caller) matches Ok(answer) ==> get(db.catalog, request.name) is Some && statement_for(
            request,
            get(db.catalog, request.name)->0,
        ) is Ok && (batch_executed(db, statement_for(request, get(db.catalog, request.name)->0)->Ok_0, caller) matches Ok(
            (staged, found),
        ) && answer.staged == staged && (exists|rows: Seq<Json>, page: Page, shown: Seq<Json>| #[trigger]
            shows(request, answer, get(db.catalog, request.name)->0, rows, page, shown, caller) && if reads(request.method) {
                exists|relations: Seq<RelationModel>| #[trigger]
                    asked_for(selection(request.params), relations) && left_over(
                        found.rows,
                        rows,
                        |row: Json| lonely(
                            row,
                            relations,
                            request.params,
                            staged,
                            get(db.catalog, request.name)->0,
                            caller,
                        ),
                    )
            } else {
                rows == found.rows
            })) && (singular(request.accept) && represented(request) ==> answer.rows.len() == 1),
{
    match table_answer(db, request, caller) {
        Err(_) => {},
        Ok(answer) => {
            let table = get(db.catalog, request.name)->0;
            let (staged, found) = batch_executed(db, statement_for(request, table)->Ok_0, caller)->Ok_0;
            let select = selection(request.params);
            let page = page_for(request)->Ok_0;
            if reads(request.method) {
                inner_relations_keep_rows_with_partners(found.rows, select, request.params, staged, table, caller);
                let rows = crate::embed::referenced_rows(found.rows, select, request.params, staged, table, caller)->Ok_0;
                pages_follow_the_skipped_rows(rows, page);
                assert(shows(request, answer, table, rows, page, paged(rows, page), caller));
            } else {
                assert(shows(request, answer, table, found.rows, page, found.rows, caller));
            }
        },
    }
}

/// A range from one number to another asks for the rows from the first to the last, both with them; one
/// without a last for all that the limit allows.
pub proof fn ranges_hold_both_ends(range: Seq<char>, limit: usize)
    ensures
        ranged(range, limit) matches Ok(page) ==> exists|start: Seq<char>, end: Seq<char>| #[trigger]
            spans(range, start, end) && parsed_usize(start) == Some(page.offset) && if end.len() == 0 {
                page.limit == limit
            } else {
                parsed_usize(end) matches Some(last) && page.offset + page.limit == last + 1 && page.limit > 0
            },
{
    match ranged(range, limit) {
        Err(_) => {},
        Ok(page) => {
            let bare = match crate::text::after_prefix(range, "items="@) {
                Some(rest) => rest,
                None => range,
            };
            let (start, end) = crate::cuts::cut_at(bare, "-"@)->Some_0;
            crate::cuts::find_text_range(bare, "-"@, 0);
            let i = crate::cuts::find_text_from(bare, "-"@, 0)->Some_0;
            assert(bare =~= start + "-"@ + end) by {
                assert(bare.subrange(i, i + "-"@.len()) == "-"@);
                assert(bare =~= bare.take(i) + bare.subrange(i, i + "-"@.len()) + bare.skip(i + "-"@.len()));
            }
            assert(spans(range, start, end)) by {
                if crate::text::after_prefix(range, "items="@) is Some {
                    assert("items="@ + bare =~= range);
                    assert("items="@ + start + "-"@ + end =~= "items="@ + (start + "-"@ + end));
                }
            }
        },
    }
}

/// Whether a range is written from a start to an end.
pub open spec fn spans(range: Seq<char>, start: Seq<char>, end: Seq<char>) -> bool {
    range == start + "-"@ + end || range == "items="@ + start + "-"@ + end
}

/// The reply to a request has the rows of the answer in its body where they are part of it: the one object
/// that is asked for, else the list. Without them the body is empty, as it is where only the head is asked for.
pub proof fn replies_carry_the_rows(request: TableRequestModel, answer: TableAnswerModel)
    requires
        singular(request.accept) && represented(request) ==> answer.rows.len() == 1,
    ensures
        ({
            let reply = table_reply_of(request, answer);
            &&& (reply.body is None) == (request.method == "HEAD"@ || !represented(request))
            &&& reply.body matches Some(body) ==> if singular(request.accept) {
                answer.rows == seq![body]
            } else {
                body == Json::Array(answer.rows)
            }
            &&& (reply.status == 204) == (!represented(request) && request.method != "POST"@)
            &&& (reply.status == 201) == (request.method == "POST"@)
            &&& reply.status == 200 || reply.status == 201 || reply.status == 204
        }),
{
    reveal_strlit("GET");
    reveal_strlit("HEAD");
    reveal_strlit("POST");
    assert("GET"@.len() == 3 && "HEAD"@[0] == 'H' && "POST"@[0] == 'P' && "POST"@.len() == 4);
    let reply = table_reply_of(request, answer);
    if reply.body is Some && singular(request.accept) {
        assert(answer.rows =~= seq![reply.body->0]);
    }
}

// ---------------------------------------------------------------------------------------------
// Types
// ---------------------------------------------------------------------------------------------

/// Whether a value is an integer between two others.
pub open spec fn whole_between(value: Json, low: int, high: int) -> bool {
    value matches Json::Number(Num::Int(n)) && low <= n <= high
}

/// A column holds null where it takes nulls, and of other values those of its type: integers of its size,
/// texts up to its length, booleans; any value where its type is JSON.
pub proof fn columns_hold_values_of_their_types(name: Seq<char>, declared: Seq<char>, nullable: bool, value: Json)
    ensures
        value is Null ==> (value_checked(name, declared, nullable, value) is Ok) == nullable,
        !(value is Null) && value_checked(name, declared, nullable, value) is Ok ==> {
            let base = before_char(declared, '(');
            &&& base == "smallint"@ || base == "int2"@ ==> whole_between(value, -0x8000, 0x7fff)
            &&& base == "int"@ || base == "integer"@ || base == "int4"@ ==> whole_between(value, -0x8000_0000, 0x7fff_ffff)
            &&& base == "bigint"@ || base == "int8"@ ==> whole_between(value, i64::MIN as int, i64::MAX as int)
            &&& base == "text"@ || base == "varchar"@ || base == "character varying"@ ==> value is String
            &&& base == "boolean"@ || base == "bool"@ ==> value is Bool
            &&& base == "uuid"@ ==> (value matches Json::String(s) && s.len() == 36 && s[8] == '-' && s[13] == '-' && s[18]
                == '-' && s[23] == '-')
            &&& base == "varchar"@ || base == "character varying"@ ==> (crate::scalar::length_limit(declared) matches Some(most)
                ==> (value matches Json::String(s) && s.len() <= most))
        },
        value is Bool && before_char(declared, '(') == "boolean"@ ==> value_checked(name, declared, nullable, value) is Ok,
        value is String && before_char(declared, '(') == "text"@ ==> value_checked(name, declared, nullable, value) is Ok,
        (value matches Json::Number(Num::Int(_))) && before_char(declared, '(') == "bigint"@ ==> value_checked(
            name,
            declared,
            nullable,
            value,
        ) is Ok,
        whole_between(value, -0x8000_0000, 0x7fff_ffff) && before_char(declared, '(') == "integer"@ ==> value_checked(
            name,
            declared,
            nullable,
            value,
        ) is Ok,
        before_char(declared, '(') == "jsonb"@ ==> value_checked(name, declared, true, value) is Ok,
{
    type_names_differ();
}

proof fn type_names_differ()
    ensures
        forall|base: Seq<char>| #[trigger]
            crate::scalar::small_type(base) ==> !crate::scalar::int_type(base) && !crate::scalar::big_type(base)
                && !crate::scalar::text_type(base) && !crate::scalar::bool_type(base) && base != "uuid"@
                && !crate::scalar::json_type(base),
        forall|base: Seq<char>| #[trigger]
            crate::scalar::int_type(base) ==> !crate::scalar::big_type(base) && !crate::scalar::text_type(base)
                && !crate::scalar::bool_type(base) && base != "uuid"@ && !crate::scalar::json_type(base),
        forall|base: Seq<char>| #[trigger]
            crate::scalar::big_type(base) ==> !crate::scalar::text_type(base) && !crate::scalar::bool_type(base) && base
                != "uuid"@ && !crate::scalar::json_type(base),
        forall|base: Seq<char>| #[trigger]
            crate::scalar::text_type(base) ==> !crate::scalar::bool_type(base) && base != "uuid"@
                && !crate::scalar::json_type(base),
        forall|base: Seq<char>| #[trigger]
            crate::scalar::bool_type(base) ==> base != "uuid"@ && !crate::scalar::json_type(base),
        !crate::scalar::json_type("uuid"@),
        !crate::scalar::varying_type("text"@),
{
    reveal_strlit("smallint");
    reveal_strlit("int2");
    reveal_strlit("int");
    reveal_strlit("integer");
    reveal_strlit("int4");
    reveal_strlit("bigint");
    reveal_strlit("int8");
    reveal_strlit("text");
    reveal_strlit("varchar");
    reveal_strlit("character varying");
    reveal_strlit("boolean");
    reveal_strlit("bool");
    reveal_strlit("uuid");
    reveal_strlit("json");
    reveal_strlit("jsonb");
    assert("smallint"@[0] == 's' && "int2"@[3] == '2' && "int4"@[3] == '4' && "int8"@[3] == '8');
    assert("smallint"@.len() == 8 && "int"@.len() == 3 && "integer"@.len() == 7 && "bigint"@.len() == 6 && "text"@.len()
        == 4 && "varchar"@.len() == 7 && "character varying"@.len() == 17 && "boolean"@.len() == 7 && "bool"@.len() == 4
        && "uuid"@.len() == 4 && "json"@.len() == 4 && "jsonb"@.len() == 5 && "int2"@.len() == 4 && "int4"@.len() == 4
        && "int8"@.len() == 4);
    assert("int2"@[0] == 'i' && "int4"@[0] == 'i' && "int8"@[0] == 'i' && "integer"@[0] == 'i' && "text"@[0] == 't'
        && "varchar"@[0] == 'v' && "boolean"@[0] == 'b' && "bool"@[0] == 'b' && "uuid"@[0] == 'u' && "json"@[0] == 'j');
}

} // verus!
