//! The decisions of the gateway: who makes a request, what a table request and a function call
//! read and write, and how they are answered.

use vstd::prelude::*;
use vstd::utf8::{decode_utf8, encode_utf8, valid_utf8};
use crate::api::{answered, breakdown, mistake, refusal, rejected, Answer, ApiError, ApiFailure, ApiOutcome};
use crate::ast::{json_of, parse_json};
use crate::auth::{
    decoded_token, session_of, verified, Auth, CallerModel, Envelope, EnvelopeModel, Session, SessionModel,
};
use crate::calls::call_committed;
use crate::catalog::{
    administrator, anonymous, empty_database, table_of, AuthContext, AuthModel, Database, DatabaseModel,
    FunctionModel, FunctionParameter, FunctionReturn, ParameterModel, ReturnModel, Row, RowModel, SqlFunction, Table,
    TableModel,
};
use crate::chain::{bytes_of, same_word};
use crate::cuts::{contains_text, cut, cut_at, holds_text};
use crate::embed::{
    filter_referenced_rows, project, project_with_params, projected, referenced_rows,
};
use crate::error::{outcome, Outcome, Result};
use crate::execute::batch_executed;
use crate::json::{group_value_views, json, Datum, Json};
use crate::ordmap::{get, put, OrdMap};
use crate::outside::{pairs_read, read_pairs, text_from};
use crate::postgrest::{
    ident, ident_of, mutation_of, mutation_sql, param, select_of, select_sql, Params, ParamsModel,
};
use crate::projection::{plan, planned};
use crate::replica::{add_last, no_items, Replica};
use crate::text::{
    after_prefix, cat2, cat3, cat5, chars_of, decimal, decimal_text, is_digit, join, joined, nothing, owned,
    parse_usize, parsed_usize, same, strip_prefix, wide_decimal_text,
};

verus! {

broadcast use group_value_views;

// ---------------------------------------------------------------------------------------------
// Authority
// ---------------------------------------------------------------------------------------------

/// Whether the keys of a project can be told apart.
pub fn keys_differ(publishable: &str, secret: &str) -> (result: bool)
    ensures
        result == (publishable@.len() > 0 && secret@.len() > 0 && publishable@ != secret@),
{
    !is_blank(publishable) && !is_blank(secret) && !same(publishable, secret)
}

fn is_blank(text: &str) -> (result: bool)
    ensures
        result == (text@.len() == 0),
{
    proof {
        reveal_strlit("");
        assert(text@.len() == 0 ==> text@ =~= ""@);
    }
    same(text, "")
}

/// Who a request claims to come from, before the chain was asked.
pub enum Access {
    /// The project itself; the chain has to confirm the delegation.
    Administrator,
    /// Nobody in particular.
    Anonymous,
    /// A user; the chain has to confirm the session.
    Signed(Envelope),
}

/// [`Access`] in specifications.
pub enum AccessModel {
    Administrator,
    Anonymous,
    Signed(EnvelopeModel),
}

impl DeepView for Access {
    type V = AccessModel;

    open spec fn deep_view(&self) -> AccessModel {
        match *self {
            Access::Administrator => AccessModel::Administrator,
            Access::Anonymous => AccessModel::Anonymous,
            Access::Signed(envelope) => AccessModel::Signed(envelope.deep_view()),
        }
    }
}

/// The token of an authorization header; nothing where it is no bearer token.
pub open spec fn bearer(authorization: Seq<char>) -> Seq<char> {
    match after_prefix(authorization, "Bearer "@) {
        Some(token) => token,
        None => Seq::empty(),
    }
}

/// Who a request claims to come from, by its project key and its token.
pub open spec fn access_of(
    api_key: Seq<char>,
    authorization: Seq<char>,
    publishable: Seq<char>,
    secret: Seq<char>,
    admin: bool,
) -> ApiOutcome<AccessModel> {
    let token = bearer(authorization);
    if api_key != publishable && api_key != secret {
        Err(refusal("Invalid project key"@))
    } else if api_key == secret && (token.len() == 0 || token == secret) {
        Ok(AccessModel::Administrator)
    } else if admin {
        Err(refusal("Administrative endpoint requires the project secret key"@))
    } else if token.len() == 0 || token == publishable {
        Ok(AccessModel::Anonymous)
    } else {
        match decoded_token(token) {
            Err(error) => Err(error),
            Ok(envelope) => Ok(AccessModel::Signed(envelope)),
        }
    }
}

/// Who a request claims to come from, by its project key and its token.
pub fn access(api_key: &str, authorization: &str, publishable: &str, secret: &str, admin: bool) -> (result: Answer<
    Access,
>)
    ensures
        answered(result) == access_of(api_key@, authorization@, publishable@, secret@, admin),
{
    if !same(api_key, publishable) && !same(api_key, secret) {
        return Err(ApiError::unauthorized("Invalid project key"));
    }
    let token = match strip_prefix(authorization, "Bearer ") {
        Some(token) => token,
        None => {
            let none = nothing();
            assert(none@ =~= Seq::<char>::empty());
            none
        },
    };
    if same(api_key, secret) && (is_blank(token.as_str()) || same(token.as_str(), secret)) {
        return Ok(Access::Administrator);
    }
    if admin {
        return Err(ApiError::unauthorized("Administrative endpoint requires the project secret key"));
    }
    if is_blank(token.as_str()) || same(token.as_str(), publishable) {
        return Ok(Access::Anonymous);
    }
    let envelope = Envelope::decode(token.as_str())?;
    Ok(Access::Signed(envelope))
}

/// The authority of a request, given what the chain says of its delegation or session.
pub open spec fn authority_of(access: AccessModel, confirmed: bool) -> ApiOutcome<CallerModel> {
    match access {
        AccessModel::Administrator => if confirmed {
            Ok(CallerModel { context: administrator(), envelope: None })
        } else {
            Err(refusal("Gateway privileged delegation is absent or revoked"@))
        },
        AccessModel::Anonymous => Ok(CallerModel { context: anonymous(), envelope: None }),
        AccessModel::Signed(envelope) => match verified(envelope, confirmed) {
            Err(error) => Err(error),
            Ok(context) => Ok(CallerModel { context, envelope: Some(envelope) }),
        },
    }
}

/// The authority of a request, given what the chain says of its delegation or session.
pub fn authority(access: Access, confirmed: bool) -> (result: Answer<Auth>)
    ensures
        answered(result) == authority_of(access.deep_view(), confirmed),
{
    match access {
        Access::Administrator => {
            if confirmed {
                Ok(Auth { context: AuthContext::admin(), envelope: None })
            } else {
                Err(ApiError::unauthorized("Gateway privileged delegation is absent or revoked"))
            }
        },
        Access::Anonymous => Ok(Auth { context: AuthContext::default(), envelope: None }),
        Access::Signed(envelope) => {
            let context = envelope.verify(confirmed)?;
            Ok(Auth { context, envelope: Some(envelope) })
        },
    }
}

/// Whether a session was signed for this gateway.
pub fn belongs(session: &Session, signer: &Vec<u8>) -> (result: bool)
    ensures
        result == (session.gateway@ == signer@),
{
    same_word(&session.gateway, signer)
}

// ---------------------------------------------------------------------------------------------
// Commits
// ---------------------------------------------------------------------------------------------

/// How the writes of a request reach the chain.
pub enum Commit {
    /// There is nothing to write.
    Nothing,
    /// With the authority of the gateway.
    Privileged,
    /// With a session and its signature.
    Signed(Session, Vec<u8>),
}

/// [`Commit`] in specifications.
pub enum CommitModel {
    Nothing,
    Privileged,
    Signed(SessionModel, Seq<u8>),
}

impl DeepView for Commit {
    type V = CommitModel;

    open spec fn deep_view(&self) -> CommitModel {
        match *self {
            Commit::Nothing => CommitModel::Nothing,
            Commit::Privileged => CommitModel::Privileged,
            Commit::Signed(session, signature) => CommitModel::Signed(session.deep_view(), signature@),
        }
    }
}

/// How the writes of a request reach the chain: not at all without a session or full authority.
pub open spec fn commit_of(writes: nat, caller: CallerModel) -> ApiOutcome<CommitModel> {
    if writes == 0 {
        Ok(CommitModel::Nothing)
    } else if !caller.context.privileged && caller.envelope is None {
        Err(refusal("Writes require an independently signed user session"@))
    } else {
        match caller.envelope {
            None => Ok(CommitModel::Privileged),
            Some(envelope) => match session_of(envelope.session) {
                Err(error) => Err(error),
                Ok(session) => Ok(CommitModel::Signed(session, envelope.signature)),
            },
        }
    }
}

/// How the writes of a request reach the chain: not at all without a session or full authority.
pub fn commit(writes: usize, auth: &Auth) -> (result: Answer<Commit>)
    ensures
        answered(result) == commit_of(writes as nat, auth.deep_view()),
{
    if writes == 0 {
        return Ok(Commit::Nothing);
    }
    match &auth.envelope {
        None => {
            if !auth.context.privileged {
                return Err(ApiError::unauthorized("Writes require an independently signed user session"));
            }
            Ok(Commit::Privileged)
        },
        Some(envelope) => {
            let session = envelope.session()?;
            Ok(Commit::Signed(session, crate::ordmap::Key::copied(&envelope.signature)))
        },
    }
}

// ---------------------------------------------------------------------------------------------
// Parts of a request
// ---------------------------------------------------------------------------------------------

/// The parameters of a query string.
pub open spec fn params_of(raw: Seq<char>) -> ParamsModel {
    pairs_read(encode_utf8(raw))
}

/// The parameters of a query string.
pub fn read_params(raw: &str) -> (result: Params)
    ensures
        result.deep_view() == params_of(raw@),
{
    read_pairs(&bytes_of(raw))
}

/// A failed statement as an answer; a result as it is.
pub open spec fn judged<T>(outcome: Outcome<T>) -> ApiOutcome<T> {
    match outcome {
        Ok(value) => Ok(value),
        Err(error) => Err(rejected(error)),
    }
}

fn judge<T: DeepView>(result: Result<T>) -> (answer: Answer<T>)
    ensures
        answered(answer) == judged(outcome(result)),
        match result {
            Ok(value) => answer == Ok::<T, ApiError>(value),
            Err(_) => answer is Err,
        },
{
    match result {
        Ok(value) => Ok(value),
        Err(error) => Err(ApiError::of(error)),
    }
}

/// Whether a version names a migration: digits, and at least one.
pub open spec fn version_given(version: Seq<char>) -> bool {
    version.len() > 0 && (forall|i: int| 0 <= i < version.len() ==> is_digit(#[trigger] version[i]))
}

/// Refuses a version that names no migration.
pub fn check_version(version: &str) -> (result: Answer<()>)
    ensures
        answered(result) == (if version_given(version@) {
            Ok::<(), ApiFailure>(())
        } else {
            Err(mistake("Migration version must be a nonempty timestamp identifier"@))
        }),
{
    let characters = chars_of(version);
    let mut i: usize = 0;
    while i < characters.len()
        invariant
            i <= characters.len(),
            characters@ == version@,
            forall|j: int| 0 <= j < i ==> is_digit(#[trigger] version@[j]),
        decreases characters.len() - i,
    {
        if !(characters[i] >= '0' && characters[i] <= '9') {
            assert(!is_digit(version@[i as int]));
            return Err(ApiError::invalid("Migration version must be a nonempty timestamp identifier"));
        }
        assert(is_digit(version@[i as int]));
        i += 1;
    }
    if characters.len() == 0 {
        return Err(ApiError::invalid("Migration version must be a nonempty timestamp identifier"));
    }
    Ok(())
}

/// The JSON value of a body; `empty` where there is no body, and a mistake where it is no JSON.
pub open spec fn body_value(body: Seq<u8>, empty: Json, message: Seq<char>) -> ApiOutcome<Json> {
    if body.len() == 0 {
        Ok(empty)
    } else if !valid_utf8(body) {
        Err(mistake(message))
    } else {
        match json_of(decode_utf8(body)) {
            Ok(value) => Ok(value),
            Err(_) => Err(mistake(message)),
        }
    }
}

fn read_body(body: &Vec<u8>, empty: Datum, message: &str) -> (result: Answer<Datum>)
    ensures
        answered(result) == body_value(body@, empty@, message@),
{
    if body.len() == 0 {
        return Ok(empty);
    }
    match text_from(body) {
        None => Err(ApiError::invalid(message)),
        Some(source) => match parse_json(source.as_str()) {
            Ok(value) => Ok(value),
            Err(_) => Err(ApiError::invalid(message)),
        },
    }
}

/// A number among the parameters, where it is given.
pub open spec fn number_param(params: ParamsModel, key: Seq<char>) -> ApiOutcome<Option<usize>> {
    match param(params, key) {
        None => Ok(None),
        Some(value) => match parsed_usize(value) {
            Some(n) => Ok(Some(n)),
            None => Err(mistake("Invalid "@ + key)),
        },
    }
}

fn read_number(params: &Params, key: &str) -> (result: Answer<Option<usize>>)
    ensures
        answered(result) == number_param(params.deep_view(), key@),
{
    match crate::postgrest::get(params, key) {
        None => Ok(None),
        Some(value) => match parse_usize(value) {
            Some(n) => Ok(Some(n)),
            None => Err(ApiError::invalid(cat2("Invalid ", key).as_str())),
        },
    }
}

/// A part of rows: how many are skipped, and how many follow at most.
pub struct Page {
    pub offset: usize,
    pub limit: usize,
}

impl DeepView for Page {
    type V = Page;

    open spec fn deep_view(&self) -> Page {
        *self
    }
}

/// The page that the parameters ask for.
pub open spec fn page_of(params: ParamsModel) -> ApiOutcome<Page> {
    match number_param(params, "offset"@) {
        Err(error) => Err(error),
        Ok(offset) => match number_param(params, "limit"@) {
            Err(error) => Err(error),
            Ok(limit) => Ok(
                Page {
                    offset: match offset {
                        Some(n) => n,
                        None => 0,
                    },
                    limit: match limit {
                        Some(n) => n,
                        None => usize::MAX,
                    },
                },
            ),
        },
    }
}

fn read_page(params: &Params) -> (result: Answer<Page>)
    ensures
        answered(result) == page_of(params.deep_view()),
{
    let offset = read_number(params, "offset")?;
    let limit = read_number(params, "limit")?;
    Ok(
        Page {
            offset: match offset {
                Some(n) => n,
                None => 0,
            },
            limit: match limit {
                Some(n) => n,
                None => usize::MAX,
            },
        },
    )
}

/// The page that a range header asks for: `first-last` or `first-`, with or without `items=`.
pub open spec fn ranged(range: Seq<char>, limit: usize) -> ApiOutcome<Page> {
    let bare = match after_prefix(range, "items="@) {
        Some(rest) => rest,
        None => range,
    };
    match cut_at(bare, "-"@) {
        None => Err(mistake("Invalid range"@)),
        Some((start, end)) => match parsed_usize(start) {
            None => Err(mistake("Invalid range start"@)),
            Some(offset) => if end.len() == 0 {
                Ok(Page { offset, limit })
            } else {
                match parsed_usize(end) {
                    None => Err(mistake("Invalid range end"@)),
                    Some(last) => if last < offset || last - offset == usize::MAX {
                        Err(mistake("Invalid range bounds"@))
                    } else {
                        Ok(Page { offset, limit: (last - offset + 1) as usize })
                    },
                }
            },
        },
    }
}

fn read_range(range: &str, limit: usize) -> (result: Answer<Page>)
    ensures
        answered(result) == ranged(range@, limit),
{
    let bare = match strip_prefix(range, "items=") {
        Some(rest) => rest,
        None => owned(range),
    };
    let (start, end) = match cut(bare.as_str(), "-") {
        Some(parts) => parts,
        None => {
            return Err(ApiError::invalid("Invalid range"));
        },
    };
    let offset: usize = match parse_usize(start.as_str()) {
        Some(n) => n,
        None => {
            return Err(ApiError::invalid("Invalid range start"));
        },
    };
    if is_blank(end.as_str()) {
        return Ok(Page { offset, limit });
    }
    let last: usize = match parse_usize(end.as_str()) {
        Some(n) => n,
        None => {
            return Err(ApiError::invalid("Invalid range end"));
        },
    };
    if last < offset || last - offset == usize::MAX {
        return Err(ApiError::invalid("Invalid range bounds"));
    }
    Ok(Page { offset, limit: last - offset + 1 })
}

/// The rows of a page.
pub open spec fn paged(rows: Seq<Json>, page: Page) -> Seq<Json> {
    if page.offset >= rows.len() {
        Seq::empty()
    } else if page.limit >= rows.len() - page.offset {
        rows.skip(page.offset as int)
    } else {
        rows.subrange(page.offset as int, page.offset + page.limit)
    }
}

fn cut_page(rows: &Vec<Datum>, page: &Page) -> (result: Vec<Datum>)
    ensures
        result.deep_view() == paged(rows.deep_view(), *page),
{
    let mut done: Vec<Datum> = no_items();
    if page.offset >= rows.len() {
        return done;
    }
    let left: usize = rows.len() - page.offset;
    let end: usize = if page.limit >= left {
        rows.len()
    } else {
        page.offset + page.limit
    };
    let ghost model = rows.deep_view();
    let mut i: usize = page.offset;
    while i < end
        invariant
            page.offset <= i <= end <= rows.len(),
            model == rows.deep_view(),
            done.deep_view() == model.subrange(page.offset as int, i as int),
        decreases end - i,
    {
        assert(model[i as int] == rows[i as int]@);
        add_last(&mut done, rows[i].copied());
        assert(done.deep_view() =~= model.subrange(page.offset as int, i + 1));
        i += 1;
    }
    assert(model.subrange(page.offset as int, model.len() as int) =~= model.skip(page.offset as int));
    done
}

/// The content range of an answer: the positions of its rows, and how many there are in all where
/// that was asked for.
pub open spec fn content_range(offset: usize, rows: nat, total: usize, prefer: Seq<char>) -> Seq<char> {
    let count = if holds_text(prefer, "count=exact"@) {
        decimal(total as nat)
    } else {
        "*"@
    };
    if rows == 0 {
        "*/"@ + count
    } else {
        decimal(offset as nat) + "-"@ + decimal((offset + rows - 1) as nat) + "/"@ + count
    }
}

/// The content range of an answer.
pub fn write_range(offset: usize, rows: usize, total: usize, prefer: &str) -> (result: String)
    ensures
        result@ == content_range(offset, rows as nat, total, prefer@),
{
    let count = if contains_text(prefer, "count=exact") {
        decimal_text(total as u64)
    } else {
        owned("*")
    };
    if rows == 0 {
        cat2("*/", count.as_str())
    } else {
        let last: u128 = offset as u128 + rows as u128 - 1;
        cat5(
            decimal_text(offset as u64).as_str(),
            "-",
            wide_decimal_text(last).as_str(),
            "/",
            count.as_str(),
        )
    }
}

/// Whether one object is asked for in place of a list.
pub open spec fn singular(accept: Seq<char>) -> bool {
    holds_text(accept, "application/vnd.pgrst.object+json"@)
}

// ---------------------------------------------------------------------------------------------
// Table requests
// ---------------------------------------------------------------------------------------------

/// A request for rows of a table.
pub struct TableRequest {
    pub name: String,
    pub method: String,
    pub params: Params,
    pub body: Vec<u8>,
    pub prefer: String,
    pub accept: String,
    pub range: String,
}

/// [`TableRequest`] in specifications.
pub struct TableRequestModel {
    pub name: Seq<char>,
    pub method: Seq<char>,
    pub params: ParamsModel,
    pub body: Seq<u8>,
    pub prefer: Seq<char>,
    pub accept: Seq<char>,
    pub range: Seq<char>,
}

impl DeepView for TableRequest {
    type V = TableRequestModel;

    open spec fn deep_view(&self) -> TableRequestModel {
        TableRequestModel {
            name: self.name@,
            method: self.method@,
            params: self.params.deep_view(),
            body: self.body@,
            prefer: self.prefer@,
            accept: self.accept@,
            range: self.range@,
        }
    }
}

/// What a table request comes to before anything is committed.
pub struct TableAnswer {
    /// The state after the request.
    pub staged: Database,
    pub rows: Vec<Datum>,
    /// How many rows there were before they were cut into pages.
    pub total: usize,
    pub offset: usize,
}

/// [`TableAnswer`] in specifications.
pub struct TableAnswerModel {
    pub staged: DatabaseModel,
    pub rows: Seq<Json>,
    pub total: usize,
    pub offset: usize,
}

impl DeepView for TableAnswer {
    type V = TableAnswerModel;

    open spec fn deep_view(&self) -> TableAnswerModel {
        TableAnswerModel {
            staged: self.staged.deep_view(),
            rows: self.rows.deep_view(),
            total: self.total,
            offset: self.offset,
        }
    }
}

/// Whether a method only reads.
pub open spec fn reads(method: Seq<char>) -> bool {
    method == "GET"@ || method == "HEAD"@
}

/// Whether a method only reads.
pub fn is_read(method: &str) -> (result: bool)
    ensures
        result == reads(method@),
{
    same(method, "GET") || same(method, "HEAD")
}

/// Whether the rows are part of the answer.
pub open spec fn represented(request: TableRequestModel) -> bool {
    reads(request.method) || holds_text(request.prefer, "return=representation"@)
}

fn is_represented(request: &TableRequest) -> (result: bool)
    ensures
        result == represented(request.deep_view()),
{
    is_read(request.method.as_str()) || contains_text(request.prefer.as_str(), "return=representation")
}

/// The query that reads a whole view.
pub open spec fn view_query(name: Seq<char>) -> ApiOutcome<Seq<char>> {
    match ident_of(name) {
        Err(error) => Err(rejected(error)),
        Ok(quoted) => Ok("SELECT * FROM "@ + quoted),
    }
}

/// The query that reads a whole view.
pub fn read_view(name: &str) -> (result: Answer<String>)
    ensures
        answered(result) == view_query(name@),
{
    let quoted = judge(ident(name))?;
    Ok(cat2("SELECT * FROM ", quoted.as_str()))
}

/// The statement of a table request.
pub open spec fn statement_for(request: TableRequestModel, table: TableModel) -> ApiOutcome<Seq<char>> {
    if reads(request.method) {
        judged(select_of(table, request.params))
    } else {
        match body_value(request.body, Json::Null, "Invalid JSON body"@) {
            Err(error) => Err(error),
            Ok(body) => judged(mutation_of(request.method, table, request.params, body, request.prefer)),
        }
    }
}

fn request_statement(request: &TableRequest, table: &Table) -> (result: Answer<String>)
    ensures
        answered(result) == statement_for(request.deep_view(), table.deep_view()),
{
    if is_read(request.method.as_str()) {
        judge(select_sql(table, &request.params))
    } else {
        let body = read_body(&request.body, Datum::Null, "Invalid JSON body")?;
        judge(
            mutation_sql(request.method.as_str(), table, &request.params, &body, request.prefer.as_str()),
        )
    }
}

/// The select list of a request.
pub open spec fn selection(params: ParamsModel) -> Seq<char> {
    match param(params, "select"@) {
        Some(select) => select,
        None => "*"@,
    }
}

fn select_list(params: &Params) -> (result: String)
    ensures
        result@ == selection(params.deep_view()),
{
    match crate::postgrest::get(params, "select") {
        Some(select) => owned(select),
        None => owned("*"),
    }
}

/// The page of a table request: that of a range header on a read, else that of the parameters.
pub open spec fn page_for(request: TableRequestModel) -> ApiOutcome<Page> {
    match page_of(request.params) {
        Err(error) => Err(error),
        Ok(page) => if reads(request.method) && request.range.len() > 0 {
            ranged(request.range, page.limit)
        } else {
            Ok(page)
        },
    }
}

fn request_page(request: &TableRequest) -> (result: Answer<Page>)
    ensures
        answered(result) == page_for(request.deep_view()),
{
    let page = read_page(&request.params)?;
    if is_read(request.method.as_str()) && !is_blank(request.range.as_str()) {
        read_range(request.range.as_str(), page.limit)
    } else {
        Ok(page)
    }
}

/// The failure of a request for one object that finds another number of rows.
pub open spec fn not_one(rows: nat) -> ApiFailure {
    ApiFailure {
        status: 406,
        code: "PGRST116"@,
        message: "JSON object requested, multiple (or no) rows returned; result contains "@ + decimal(rows)
            + " rows"@,
    }
}

/// The rows of a table request after its statement has run: those with the partners that the select
/// list demands, cut to the page on a read, and with the selected fields.
pub open spec fn answer_rows(
    request: TableRequestModel,
    table: TableModel,
    staged: DatabaseModel,
    found: Seq<Json>,
    caller: AuthModel,
) -> ApiOutcome<TableAnswerModel> {
    let select = selection(request.params);
    let kept = if reads(request.method) {
        judged(referenced_rows(found, select, request.params, staged, table, caller))
    } else {
        Ok(found)
    };
    match kept {
        Err(error) => Err(error),
        Ok(rows) => match page_for(request) {
            Err(error) => Err(error),
            Ok(page) => {
                let shown = if reads(request.method) {
                    paged(rows, page)
                } else {
                    rows
                };
                match projected(shown, select, request.params, staged, table, caller) {
                    Err(error) => Err(rejected(error)),
                    Ok(result) => if singular(request.accept) && represented(request) && result.len() != 1 {
                        Err(not_one(result.len()))
                    } else {
                        Ok(
                            TableAnswerModel {
                                staged,
                                rows: result,
                                total: rows.len() as usize,
                                offset: page.offset,
                            },
                        )
                    },
                }
            },
        },
    }
}

/// What a table request comes to before anything is committed.
pub open spec fn table_answer(db: DatabaseModel, request: TableRequestModel, caller: AuthModel) -> ApiOutcome<
    TableAnswerModel,
> {
    match get(db.catalog, request.name) {
        None => Err(mistake("Unknown table "@ + request.name)),
        Some(table) => match statement_for(request, table) {
            Err(error) => Err(error),
            Ok(sql) => match batch_executed(db, sql, caller) {
                Err(error) => Err(rejected(error)),
                Ok((staged, found)) => answer_rows(request, table, staged, found.rows, caller),
            },
        },
    }
}

fn shape_rows(
    request: &TableRequest,
    table: &Table,
    staged: Database,
    found: Vec<Datum>,
    context: &AuthContext,
) -> (result: Answer<TableAnswer>)
    ensures
        answered(result) == answer_rows(
            request.deep_view(),
            table.deep_view(),
            staged.deep_view(),
            found.deep_view(),
            context.deep_view(),
        ),
{
    let select = select_list(&request.params);
    let reading = is_read(request.method.as_str());
    let rows = if reading {
        judge(
            filter_referenced_rows(found, select.as_str(), &request.params, &staged, table, context),
        )?
    } else {
        found
    };
    let total: usize = rows.len();
    let page = request_page(request)?;
    let shown = if reading {
        cut_page(&rows, &page)
    } else {
        rows
    };
    let result = judge(
        project_with_params(shown, select.as_str(), &request.params, &staged, table, context),
    )?;
    if contains_text(request.accept.as_str(), "application/vnd.pgrst.object+json") && is_represented(request)
        && result.len() != 1 {
        let count = decimal_text(result.len() as u64);
        return Err(
            ApiError {
                status: 406,
                code: owned("PGRST116"),
                message: cat3(
                    "JSON object requested, multiple (or no) rows returned; result contains ",
                    count.as_str(),
                    " rows",
                ),
            },
        );
    }
    Ok(TableAnswer { staged, rows: result, total, offset: page.offset })
}

/// What a table request comes to before anything is committed.
pub fn table(db: &Database, request: &TableRequest, context: &AuthContext) -> (result: Answer<TableAnswer>)
    ensures
        answered(result) == table_answer(db.deep_view(), request.deep_view(), context.deep_view()),
{
    let found_table = match db.catalog.get(&request.name) {
        Some(found) => found,
        None => {
            return Err(ApiError::invalid(cat2("Unknown table ", request.name.as_str()).as_str()));
        },
    };
    let sql = request_statement(request, found_table)?;
    let mut staged = db.replica();
    let found = judge(staged.execute_sql(sql.as_str(), context))?;
    shape_rows(request, found_table, staged, found.rows, context)
}

/// An answer: its status, its body where it has one, and its content range.
pub struct Reply {
    pub status: u16,
    pub body: Option<Datum>,
    pub content_range: String,
}

/// [`Reply`] in specifications.
pub struct ReplyModel {
    pub status: u16,
    pub body: Option<Json>,
    pub content_range: Seq<char>,
}

impl DeepView for Reply {
    type V = ReplyModel;

    open spec fn deep_view(&self) -> ReplyModel {
        ReplyModel { status: self.status, body: self.body.deep_view(), content_range: self.content_range@ }
    }
}

/// One object where one is asked for, else the list.
pub open spec fn shown_rows(rows: Seq<Json>, one: bool) -> Json {
    if one {
        if rows.len() > 0 {
            rows[0]
        } else {
            Json::Null
        }
    } else {
        Json::Array(rows)
    }
}

fn show_rows(rows: &Vec<Datum>, one: bool) -> (result: Datum)
    ensures
        result@ == shown_rows(rows.deep_view(), one),
{
    if one {
        if rows.len() > 0 {
            assert(rows.deep_view()[0] == rows[0]@);
            rows[0].copied()
        } else {
            Datum::Null
        }
    } else {
        Datum::Array(rows.replica())
    }
}

/// The answer to a table request.
pub open spec fn table_reply_of(request: TableRequestModel, answer: TableAnswerModel) -> ReplyModel {
    ReplyModel {
        status: if reads(request.method) {
            200
        } else if request.method == "POST"@ {
            201
        } else if represented(request) {
            200
        } else {
            204
        },
        body: if !represented(request) || request.method == "HEAD"@ {
            None
        } else {
            Some(shown_rows(answer.rows, singular(request.accept)))
        },
        content_range: content_range(answer.offset, answer.rows.len(), answer.total, request.prefer),
    }
}

/// The answer to a table request.
pub fn table_reply(request: &TableRequest, answer: &TableAnswer) -> (result: Reply)
    ensures
        result.deep_view() == table_reply_of(request.deep_view(), answer.deep_view()),
{
    let method = request.method.as_str();
    let represented_rows = is_represented(request);
    let status: u16 = if is_read(method) {
        200
    } else if same(method, "POST") {
        201
    } else if represented_rows {
        200
    } else {
        204
    };
    let body = if !represented_rows || same(method, "HEAD") {
        None
    } else {
        Some(
            show_rows(
                &answer.rows,
                contains_text(request.accept.as_str(), "application/vnd.pgrst.object+json"),
            ),
        )
    };
    Reply {
        status,
        body,
        content_range: write_range(
            answer.offset,
            answer.rows.len(),
            answer.total,
            request.prefer.as_str(),
        ),
    }
}

// ---------------------------------------------------------------------------------------------
// Function calls
// ---------------------------------------------------------------------------------------------

/// A request to call a function.
pub struct RpcRequest {
    pub name: String,
    pub method: String,
    pub params: Params,
    pub body: Vec<u8>,
    pub prefer: String,
    pub accept: String,
}

/// [`RpcRequest`] in specifications.
pub struct RpcRequestModel {
    pub name: Seq<char>,
    pub method: Seq<char>,
    pub params: ParamsModel,
    pub body: Seq<u8>,
    pub prefer: Seq<char>,
    pub accept: Seq<char>,
}

impl DeepView for RpcRequest {
    type V = RpcRequestModel;

    open spec fn deep_view(&self) -> RpcRequestModel {
        RpcRequestModel {
            name: self.name@,
            method: self.method@,
            params: self.params.deep_view(),
            body: self.body@,
            prefer: self.prefer@,
            accept: self.accept@,
        }
    }
}

/// What a function call comes to before anything is committed.
pub struct RpcAnswer {
    pub staged: Database,
    pub rows: Vec<Datum>,
    pub total: usize,
    pub offset: usize,
    /// Whether the function returns one value.
    pub scalar: bool,
}

/// [`RpcAnswer`] in specifications.
pub struct RpcAnswerModel {
    pub staged: DatabaseModel,
    pub rows: Seq<Json>,
    pub total: usize,
    pub offset: usize,
    pub scalar: bool,
}

impl DeepView for RpcAnswer {
    type V = RpcAnswerModel;

    open spec fn deep_view(&self) -> RpcAnswerModel {
        RpcAnswerModel {
            staged: self.staged.deep_view(),
            rows: self.rows.deep_view(),
            total: self.total,
            offset: self.offset,
            scalar: self.scalar,
        }
    }
}

/// Whether an argument of this type is written as JSON.
pub open spec fn bare_argument(data_type: Seq<char>) -> bool {
    data_type == "integer"@ || data_type == "int"@ || data_type == "bigint"@ || data_type == "smallint"@ || data_type
        == "boolean"@ || data_type == "bool"@
}

/// An argument from the text of a parameter.
pub open spec fn argument_of(value: Seq<char>, data_type: Seq<char>) -> ApiOutcome<Json> {
    if bare_argument(data_type) {
        match json_of(value) {
            Ok(read) => Ok(read),
            Err(_) => Err(mistake("Invalid RPC parameter type"@)),
        }
    } else {
        Ok(Json::String(value))
    }
}

fn argument(value: &str, data_type: &str) -> (result: Answer<Datum>)
    ensures
        answered(result) == argument_of(value@, data_type@),
{
    if same(data_type, "integer") || same(data_type, "int") || same(data_type, "bigint") || same(
        data_type,
        "smallint",
    ) || same(data_type, "boolean") || same(data_type, "bool") {
        match parse_json(value) {
            Ok(read) => Ok(read),
            Err(_) => Err(ApiError::invalid("Invalid RPC parameter type")),
        }
    } else {
        Ok(Datum::string(value))
    }
}

/// The arguments among the parameters for the function parameters from position `from` on: each takes
/// its first parameter away.
pub open spec fn arguments_from(
    parameters: Seq<ParameterModel>,
    from: int,
    params: ParamsModel,
    done: Seq<(Seq<char>, Json)>,
) -> ApiOutcome<(ParamsModel, Seq<(Seq<char>, Json)>)>
    decreases parameters.len() - from,
{
    if from < 0 || from >= parameters.len() {
        Ok((params, done))
    } else {
        let at = crate::ordmap::spot_from(params, parameters[from].name, 0);
        if at < params.len() {
            match argument_of(params[at].1, parameters[from].data_type) {
                Err(error) => Err(error),
                Ok(value) => arguments_from(
                    parameters,
                    from + 1,
                    params.remove(at),
                    put(done, parameters[from].name, value),
                ),
            }
        } else {
            arguments_from(parameters, from + 1, params, done)
        }
    }
}

fn find_param(params: &Params, key: &str) -> (result: usize)
    ensures
        result == crate::ordmap::spot_from(params.deep_view(), key@, 0),
        result <= params.len(),
{
    let ghost model = params.deep_view();
    let mut i: usize = 0;
    while i < params.len()
        invariant
            i <= params.len(),
            model == params.deep_view(),
            crate::ordmap::spot_from(model, key@, 0) == crate::ordmap::spot_from(model, key@, i as int),
        decreases params.len() - i,
    {
        assert(model[i as int] == (params[i as int].0@, params[i as int].1@));
        if same(params[i].0.as_str(), key) {
            return i;
        }
        i += 1;
    }
    i
}

#[verifier::loop_isolation(false)]
fn take_arguments(parameters: &Vec<FunctionParameter>, params: Params) -> (result: Answer<
    (Params, OrdMap<String, Datum>),
>)
    ensures
        answered(result) == arguments_from(parameters.deep_view(), 0, params.deep_view(), Seq::empty()),
{
    let mut left = params;
    let mut done: OrdMap<String, Datum> = OrdMap::new();
    let ghost model = parameters.deep_view();
    let ghost first = params.deep_view();
    let mut i: usize = 0;
    while i < parameters.len()
        invariant
            i <= parameters.len(),
            arguments_from(model, 0, first, Seq::empty()) == arguments_from(
                model,
                i as int,
                left.deep_view(),
                done@,
            ),
        decreases parameters.len() - i,
    {
        assert(model[i as int] == parameters[i as int].deep_view());
        let at: usize = find_param(&left, parameters[i].name.as_str());
        if at < left.len() {
            let ghost before = left.deep_view();
            assert(before[at as int] == (left[at as int].0@, left[at as int].1@));
            let (_, value) = left.remove(at);
            assert(left.deep_view() =~= before.remove(at as int));
            let read = argument(value.as_str(), parameters[i].data_type.as_str())?;
            done.insert(parameters[i].name.clone(), read);
        }
        i += 1;
    }
    Ok((left, done))
}

/// The arguments of a call and the parameters that are left: taken from the parameters on a read,
/// from the body on a post.
pub open spec fn call_arguments(request: RpcRequestModel, function: FunctionModel) -> ApiOutcome<(ParamsModel, Json)> {
    if reads(request.method) {
        match arguments_from(function.parameters, 0, request.params, Seq::empty()) {
            Err(error) => Err(error),
            Ok((left, values)) => Ok((left, Json::Object(values))),
        }
    } else if request.method == "POST"@ {
        match body_value(request.body, Json::Object(Seq::empty()), "Invalid RPC JSON"@) {
            Err(error) => Err(error),
            Ok(value) => Ok((request.params, value)),
        }
    } else {
        Err(mistake("RPC supports GET, HEAD and POST"@))
    }
}

fn read_arguments(request: &RpcRequest, function: &SqlFunction) -> (result: Answer<(Params, Datum)>)
    ensures
        answered(result) == call_arguments(request.deep_view(), function.deep_view()),
{
    if is_read(request.method.as_str()) {
        let (left, values) = take_arguments(&function.parameters, request.params.replica())?;
        Ok((left, Datum::Object(values)))
    } else if same(request.method.as_str(), "POST") {
        let none: OrdMap<String, Datum> = OrdMap::new();
        let value = read_body(&request.body, Datum::Object(none), "Invalid RPC JSON")?;
        Ok((request.params.replica(), value))
    } else {
        Err(ApiError::invalid("RPC supports GET, HEAD and POST"))
    }
}

/// The definitions of the declared columns from position `from` on, after those in `done`.
pub open spec fn definitions_from(columns: Seq<(Seq<char>, Seq<char>)>, from: int, done: Seq<Seq<char>>) -> Outcome<
    Seq<Seq<char>>,
>
    decreases columns.len() - from,
{
    if from < 0 || from >= columns.len() {
        Ok(done)
    } else {
        match ident_of(columns[from].0) {
            Err(error) => Err(error),
            Ok(name) => definitions_from(columns, from + 1, done.push(name + " "@ + columns[from].1)),
        }
    }
}

fn definitions(columns: &Vec<(String, String)>) -> (result: Result<Vec<String>>)
    ensures
        outcome(result) == definitions_from(columns.deep_view(), 0, Seq::empty()),
{
    let mut done: Vec<String> = no_items();
    let ghost model = columns.deep_view();
    let mut i: usize = 0;
    while i < columns.len()
        invariant
            i <= columns.len(),
            model == columns.deep_view(),
            definitions_from(model, 0, Seq::empty()) == definitions_from(model, i as int, done.deep_view()),
        decreases columns.len() - i,
    {
        assert(model[i as int] == (columns[i as int].0@, columns[i as int].1@));
        let name = ident(columns[i].0.as_str())?;
        add_last(&mut done, cat3(name.as_str(), " ", columns[i].1.as_str()));
        i += 1;
    }
    Ok(done)
}

/// The table whose columns a function returns.
pub open spec fn returned_table(db: DatabaseModel, kind: ReturnModel) -> ApiOutcome<TableModel> {
    match kind {
        ReturnModel::SetOf(name) => judged(table_of(db, name)),
        ReturnModel::Table(columns) => match definitions_from(columns, 0, Seq::empty()) {
            Err(error) => Err(rejected(error)),
            Ok(list) => match batch_executed(
                empty_database(),
                "CREATE TABLE rpc_result ("@ + joined(list, ","@) + ")"@,
                administrator(),
            ) {
                Err(error) => Err(rejected(error)),
                Ok((made, _)) => match get(made.catalog, "rpc_result"@) {
                    Some(table) => Ok(table),
                    None => Err(breakdown()),
                },
            },
        },
        _ => Err(breakdown()),
    }
}

fn return_table(db: &Database, kind: &FunctionReturn) -> (result: Answer<Table>)
    ensures
        answered(result) == returned_table(db.deep_view(), kind.deep_view()),
{
    match kind {
        FunctionReturn::SetOf(name) => match db.table(name.as_str()) {
            Ok(found) => Ok(found.replica()),
            Err(error) => Err(ApiError::of(error)),
        },
        FunctionReturn::Table(columns) => {
            let list = judge(definitions(columns))?;
            let sql = cat3("CREATE TABLE rpc_result (", join(&list, ",").as_str(), ")");
            let mut made = Database::default();
            let _ = judge(made.execute_sql(sql.as_str(), &AuthContext::admin()))?;
            match made.catalog.find("rpc_result") {
                Some(found) => Ok(found.replica()),
                None => Err(ApiError::internal()),
            }
        },
        _ => Err(ApiError::internal()),
    }
}

/// A table that only holds results: without keys, checks, policies and rows.
pub open spec fn bared(table: TableModel) -> TableModel {
    TableModel {
        name: "rpc_result"@,
        rls_enabled: false,
        rows: Seq::empty(),
        primary_key: Seq::empty(),
        unique: Seq::empty(),
        foreign_keys: Seq::empty(),
        checks: Seq::empty(),
        policies: Seq::empty(),
        ..table
    }
}

/// Returned rows from position `from` on as rows of a table, numbered from one, put into `done`.
pub open spec fn returned_rows_from(rows: Seq<Json>, from: int, done: Seq<(u64, RowModel)>) -> ApiOutcome<
    Seq<(u64, RowModel)>,
>
    decreases rows.len() - from,
{
    if from < 0 || from >= rows.len() {
        Ok(done)
    } else {
        match rows[from] {
            Json::Object(values) => returned_rows_from(
                rows,
                from + 1,
                put(
                    done,
                    (from + 1) as u64,
                    RowModel { id: (from + 1) as u64, version: 0, values },
                ),
            ),
            _ => Err(mistake("RPC returned a non-row value"@)),
        }
    }
}

fn return_rows(rows: &Vec<Datum>) -> (result: Answer<OrdMap<u64, Row>>)
    ensures
        answered(result) == returned_rows_from(rows.deep_view(), 0, Seq::empty()),
{
    let mut done: OrdMap<u64, Row> = OrdMap::new();
    let ghost model = rows.deep_view();
    let mut i: usize = 0;
    while i < rows.len()
        invariant
            i <= rows.len(),
            model == rows.deep_view(),
            returned_rows_from(model, 0, Seq::empty()) == returned_rows_from(model, i as int, done@),
        decreases rows.len() - i,
    {
        assert(model[i as int] == rows[i as int]@);
        let id: u64 = i as u64 + 1;
        match &rows[i] {
            Datum::Object(values) => {
                done.insert(id, Row { id, version: 0, values: values.replica() });
            },
            _ => {
                return Err(ApiError::invalid("RPC returned a non-row value"));
            },
        }
        i += 1;
    }
    Ok(done)
}

/// A state of one table.
pub open spec fn lone_table(table: TableModel) -> DatabaseModel {
    DatabaseModel { catalog: put(Seq::empty(), table.name, table), ..empty_database() }
}

/// The rows that a function returned, filtered, ordered and with the selected fields.
pub open spec fn relation_rows_of(
    db: DatabaseModel,
    kind: ReturnModel,
    rows: Seq<Json>,
    params: ParamsModel,
) -> ApiOutcome<Seq<Json>> {
    match returned_table(db, kind) {
        Err(error) => Err(error),
        Ok(shape) => match returned_rows_from(rows, 0, Seq::empty()) {
            Err(error) => Err(error),
            Ok(stored) => {
                let output = TableModel { rows: stored, ..bared(shape) };
                match select_of(output, params) {
                    Err(error) => Err(rejected(error)),
                    Ok(sql) => match batch_executed(lone_table(output), sql, administrator()) {
                        Err(error) => Err(rejected(error)),
                        Ok((held, found)) => judged(
                            projected(
                                found.rows,
                                selection(params),
                                Seq::empty(),
                                held,
                                output,
                                administrator(),
                            ),
                        ),
                    },
                }
            },
        },
    }
}

fn relation_result(db: &Database, kind: &FunctionReturn, rows: &Vec<Datum>, params: &Params) -> (result: Answer<
    Vec<Datum>,
>)
    ensures
        answered(result) == relation_rows_of(
            db.deep_view(),
            kind.deep_view(),
            rows.deep_view(),
            params.deep_view(),
        ),
{
    let mut output = return_table(db, kind)?;
    let ghost shape = output.deep_view();
    let stored = return_rows(rows)?;
    output.name = owned("rpc_result");
    output.rls_enabled = false;
    output.rows = stored;
    output.primary_key = no_items();
    output.unique = no_items();
    output.foreign_keys = no_items();
    output.checks = no_items();
    output.policies = no_items();
    assert(output.deep_view() == (TableModel { rows: stored@, ..bared(shape) }));
    let sql = judge(select_sql(&output, params))?;
    let mut held = Database::default();
    held.catalog = OrdMap::new();
    held.catalog.insert(output.name.clone(), output.replica());
    assert(held.deep_view() == lone_table(output.deep_view()));
    let admin = AuthContext::admin();
    let found = judge(held.execute_sql(sql.as_str(), &admin))?;
    judge(project(found.rows, select_list(params).as_str(), &held, &output, &admin))
}

/// Whether a function returns one value.
pub open spec fn returns_scalar(kind: ReturnModel) -> bool {
    kind is Scalar || kind is Void
}

/// The failure of a call for one object that finds another number of rows.
pub open spec fn not_one_row(rows: nat) -> ApiFailure {
    ApiFailure { status: 406, code: "PGRST116"@, message: "Result contains "@ + decimal(rows) + " rows"@ }
}

/// The rows of a call after it has run.
pub open spec fn call_rows(
    db: DatabaseModel,
    kind: ReturnModel,
    rows: Seq<Json>,
    params: ParamsModel,
) -> ApiOutcome<Seq<Json>> {
    if !returns_scalar(kind) {
        relation_rows_of(db, kind, rows, params)
    } else if params.len() > 0 {
        Err(mistake("Scalar RPC does not support relation filters"@))
    } else {
        Ok(rows)
    }
}

/// What a function call comes to before anything is committed. Only a post may write.
pub open spec fn rpc_answer(db: DatabaseModel, request: RpcRequestModel, caller: AuthModel) -> ApiOutcome<
    RpcAnswerModel,
> {
    match get(db.functions, request.name) {
        None => Err(mistake("Unknown function "@ + request.name)),
        Some(function) => match call_arguments(request, function) {
            Err(error) => Err(error),
            Ok((params, args)) => match call_committed(db, request.name, args, caller) {
                Err(error) => Err(rejected(error)),
                Ok((staged, found)) => match call_rows(db, function.return_kind, found.rows, params) {
                    Err(error) => Err(error),
                    Ok(rows) => match page_of(params) {
                        Err(error) => Err(error),
                        Ok(page) => {
                            let shown = paged(rows, page);
                            if singular(request.accept) && shown.len() != 1 {
                                Err(not_one_row(shown.len()))
                            } else if request.method != "POST"@ && planned(db, staged).len() > 0 {
                                Err(mistake("Mutating RPC requires POST"@))
                            } else {
                                Ok(
                                    RpcAnswerModel {
                                        staged,
                                        rows: shown,
                                        total: rows.len() as usize,
                                        offset: page.offset,
                                        scalar: returns_scalar(function.return_kind),
                                    },
                                )
                            }
                        },
                    },
                },
            },
        },
    }
}

/// What a function call comes to before anything is committed. Only a post may write.
pub fn rpc(db: &Database, request: &RpcRequest, context: &AuthContext) -> (result: Answer<RpcAnswer>)
    ensures
        answered(result) == rpc_answer(db.deep_view(), request.deep_view(), context.deep_view()),
{
    let function = match db.functions.get(&request.name) {
        Some(function) => function,
        None => {
            return Err(ApiError::invalid(cat2("Unknown function ", request.name.as_str()).as_str()));
        },
    };
    let (params, args) = read_arguments(request, function)?;
    let mut staged = db.replica();
    let found = judge(staged.call_function(request.name.as_str(), &args, context))?;
    let scalar = match &function.return_kind {
        FunctionReturn::Scalar(_) => true,
        FunctionReturn::Void => true,
        _ => false,
    };
    let rows = if !scalar {
        relation_result(db, &function.return_kind, &found.rows, &params)?
    } else {
        if params.len() > 0 {
            return Err(ApiError::invalid("Scalar RPC does not support relation filters"));
        }
        found.rows
    };
    let total: usize = rows.len();
    let page = read_page(&params)?;
    let shown = cut_page(&rows, &page);
    if contains_text(request.accept.as_str(), "application/vnd.pgrst.object+json") && shown.len() != 1 {
        let count = decimal_text(shown.len() as u64);
        return Err(
            ApiError {
                status: 406,
                code: owned("PGRST116"),
                message: cat3("Result contains ", count.as_str(), " rows"),
            },
        );
    }
    if !same(request.method.as_str(), "POST") {
        match plan(db, &staged) {
            Ok(ops) => {
                if ops.len() > 0 {
                    return Err(ApiError::invalid("Mutating RPC requires POST"));
                }
            },
            Err(_) => {},
        }
    }
    Ok(RpcAnswer { staged, rows: shown, total, offset: page.offset, scalar })
}

/// The answer to a function call.
pub open spec fn rpc_reply_of(request: RpcRequestModel, answer: RpcAnswerModel) -> ReplyModel {
    ReplyModel {
        status: 200,
        body: if request.method == "HEAD"@ {
            None
        } else {
            Some(shown_rows(answer.rows, answer.scalar || singular(request.accept)))
        },
        content_range: content_range(answer.offset, answer.rows.len(), answer.total, request.prefer),
    }
}

/// The answer to a function call.
pub fn rpc_reply(request: &RpcRequest, answer: &RpcAnswer) -> (result: Reply)
    ensures
        result.deep_view() == rpc_reply_of(request.deep_view(), answer.deep_view()),
{
    let body = if same(request.method.as_str(), "HEAD") {
        None
    } else {
        let one = answer.scalar || contains_text(
            request.accept.as_str(),
            "application/vnd.pgrst.object+json",
        );
        Some(show_rows(&answer.rows, one))
    };
    Reply {
        status: 200,
        body,
        content_range: write_range(
            answer.offset,
            answer.rows.len(),
            answer.total,
            request.prefer.as_str(),
        ),
    }
}

} // verus!
