//! The bodies of answers that are not rows: failures, states of the gateway, and sessions.

use vstd::prelude::*;
use crate::api::{answered, refusal, Answer, ApiError, ApiFailure, ApiOutcome};
use crate::auth::{hex, hex_of, token_of, Envelope, EnvelopeModel};
use crate::catalog::{AuthContext, AuthModel, Database, DatabaseModel, TableModel};
use crate::chain::ChainSnapshot;
use crate::encode::{unsigned, unsigned_json};
use crate::json::{group_value_views, Datum, Json};
use crate::ordmap::{put, OrdMap};
use crate::replica::{add_last, no_items, Replica};
use crate::text::{owned, same};

verus! {

broadcast use group_value_views;

/// A text, or null where there is none.
pub open spec fn text_or_null(text: Option<Seq<char>>) -> Json {
    match text {
        Some(text) => Json::String(text),
        None => Json::Null,
    }
}

fn text_value(text: &Option<String>) -> (result: Datum)
    ensures
        result@ == text_or_null(text.deep_view()),
{
    match text {
        Some(text) => Datum::string(text.as_str()),
        None => Datum::Null,
    }
}

impl ApiError {
    /// The body of a failure.
    pub open spec fn body_of(failure: ApiFailure) -> Json {
        Json::Object(
            put(
                put(
                    put(put(Seq::empty(), "code"@, Json::String(failure.code)), "message"@, Json::String(failure.message)),
                    "details"@,
                    Json::Null,
                ),
                "hint"@,
                Json::Null,
            ),
        )
    }

    /// The body of a failure.
    pub fn body(&self) -> (result: Datum)
        ensures
            result@ == Self::body_of(self@),
    {
        let mut fields: OrdMap<String, Datum> = OrdMap::new();
        fields.insert(owned("code"), Datum::string(self.code.as_str()));
        fields.insert(owned("message"), Datum::string(self.message.as_str()));
        fields.insert(owned("details"), Datum::Null);
        fields.insert(owned("hint"), Datum::Null);
        Datum::Object(fields)
    }
}

/// A state whose tables show no rows.
pub open spec fn without_rows_of(database: DatabaseModel) -> DatabaseModel {
    DatabaseModel {
        catalog: Seq::new(
            database.catalog.len(),
            |i: int|
                (database.catalog[i].0, TableModel { rows: Seq::empty(), ..database.catalog[i].1 }),
        ),
        ..database
    }
}

/// A state whose tables show no rows.
pub fn without_rows(database: &Database) -> (result: Database)
    ensures
        result.deep_view() == without_rows_of(database.deep_view()),
{
    let mut result = database.replica();
    let ghost start = database.deep_view();
    let mut i: usize = 0;
    while i < result.catalog.len()
        invariant
            start == database.deep_view(),
            i <= result.catalog@.len() == start.catalog.len(),
            result.deep_view() == (DatabaseModel { catalog: result.catalog@, ..start }),
            forall|j: int| i <= j < start.catalog.len() ==> result.catalog@[j] == start.catalog[j],
            forall|j: int|
                0 <= j < i ==> #[trigger] result.catalog@[j] == (start.catalog[j].0, TableModel {
                    rows: Seq::empty(),
                    ..start.catalog[j].1
                }),
        decreases result.catalog@.len() - i,
    {
        let mut table = result.catalog.value_at(i).replica();
        assert(table.deep_view() == start.catalog[i as int].1);
        table.rows = OrdMap::new();
        assert(table.deep_view() == (TableModel { rows: Seq::empty(), ..start.catalog[i as int].1 }));
        result.catalog.set_at(i, table);
        i += 1;
    }
    assert(result.catalog@ =~= without_rows_of(start).catalog);
    result
}

/// How the chain stands.
pub open spec fn health_of(snapshot: ChainSnapshot) -> Json {
    Json::Object(
        put(
            put(
                put(
                    put(Seq::empty(), "status"@, Json::String("ok"@)),
                    "block_number"@,
                    unsigned_json(snapshot.block_number),
                ),
                "block_hash"@,
                Json::String(hex_of(snapshot.block_hash@)),
            ),
            "revision"@,
            unsigned_json(snapshot.revision),
        ),
    )
}

/// How the chain stands.
pub fn health(snapshot: &ChainSnapshot) -> (result: Datum)
    ensures
        result@ == health_of(*snapshot),
{
    let mut fields: OrdMap<String, Datum> = OrdMap::new();
    fields.insert(owned("status"), Datum::string("ok"));
    fields.insert(owned("block_number"), unsigned(snapshot.block_number));
    fields.insert(owned("block_hash"), Datum::string(hex(&snapshot.block_hash).as_str()));
    fields.insert(owned("revision"), unsigned(snapshot.revision));
    Datum::Object(fields)
}

/// The versions of the migrations that were applied, in order.
pub open spec fn migrations_of(database: DatabaseModel) -> Json {
    Json::Object(
        put(
            Seq::empty(),
            "migrations"@,
            Json::Array(
                Seq::new(database.migrations.len(), |i: int| Json::String(database.migrations[i].0)),
            ),
        ),
    )
}

/// The versions of the migrations that were applied, in order.
pub fn migrations(database: &Database) -> (result: Datum)
    ensures
        result@ == migrations_of(database.deep_view()),
{
    let mut list: Vec<Datum> = no_items();
    let ghost all = database.deep_view().migrations;
    let mut i: usize = 0;
    while i < database.migrations.len()
        invariant
            all == database.migrations@,
            i <= all.len(),
            list.deep_view() == Seq::new(i as nat, |j: int| Json::String(all[j].0)),
        decreases all.len() - i,
    {
        add_last(&mut list, Datum::string(database.migrations.key_at(i).as_str()));
        assert(list.deep_view() =~= Seq::new((i + 1) as nat, |j: int| Json::String(all[j].0)));
        i += 1;
    }
    let mut fields: OrdMap<String, Datum> = OrdMap::new();
    fields.insert(owned("migrations"), Datum::Array(list));
    Datum::Object(fields)
}

/// What a batch came to.
pub open spec fn batch_reply_of(
    rows: Seq<Json>,
    affected: usize,
    transaction: Option<Seq<char>>,
    block_number: u64,
    revision: u64,
) -> Json {
    Json::Object(
        put(
            put(
                put(
                    put(
                        put(Seq::empty(), "rows"@, Json::Array(rows)),
                        "affected"@,
                        unsigned_json(affected as u64),
                    ),
                    "transaction_hash"@,
                    text_or_null(transaction),
                ),
                "block_number"@,
                unsigned_json(block_number),
            ),
            "revision"@,
            unsigned_json(revision),
        ),
    )
}

/// What a batch came to.
pub fn batch_reply(
    rows: Vec<Datum>,
    affected: usize,
    transaction: &Option<String>,
    block_number: u64,
    revision: u64,
) -> (result: Datum)
    ensures
        result@ == batch_reply_of(rows.deep_view(), affected, transaction.deep_view(), block_number, revision),
{
    let mut fields: OrdMap<String, Datum> = OrdMap::new();
    fields.insert(owned("rows"), Datum::Array(rows));
    fields.insert(owned("affected"), unsigned(affected as u64));
    fields.insert(owned("transaction_hash"), text_value(transaction));
    fields.insert(owned("block_number"), unsigned(block_number));
    fields.insert(owned("revision"), unsigned(revision));
    Datum::Object(fields)
}

/// Whether a session may be exchanged for a token: with the publishable key alone.
pub open spec fn exchange_allowed(api_key: Seq<char>, publishable: Seq<char>) -> ApiOutcome<()> {
    if api_key != publishable {
        Err(refusal("Use the publishable project key for session exchange"@))
    } else {
        Ok(())
    }
}

/// Refuses to exchange a session for a token without the publishable key.
pub fn check_exchange(api_key: &str, publishable: &str) -> (result: Answer<()>)
    ensures
        answered(result) == exchange_allowed(api_key@, publishable@),
{
    if !same(api_key, publishable) {
        return Err(ApiError::unauthorized("Use the publishable project key for session exchange"));
    }
    Ok(())
}

/// The token of a verified session and whom it is for.
pub open spec fn session_reply_of(envelope: EnvelopeModel, caller: AuthModel) -> Json {
    Json::Object(
        put(
            put(
                put(
                    put(Seq::empty(), "access_token"@, Json::String(token_of(envelope))),
                    "token_type"@,
                    Json::String("bearer"@),
                ),
                "user"@,
                Json::Object(put(Seq::empty(), "id"@, text_or_null(caller.uid))),
            ),
            "expires_at"@,
            Json::String(envelope.session.expires_at),
        ),
    )
}

/// The token of a verified session and whom it is for.
pub fn session_reply(envelope: &Envelope, context: &AuthContext) -> (result: Answer<Datum>)
    ensures
        answered(result) == Ok::<Json, ApiFailure>(session_reply_of(envelope.deep_view(), context.deep_view())),
{
    let token = envelope.token()?;
    let mut user: OrdMap<String, Datum> = OrdMap::new();
    user.insert(owned("id"), text_value(&context.uid));
    let mut fields: OrdMap<String, Datum> = OrdMap::new();
    fields.insert(owned("access_token"), Datum::string(token.as_str()));
    fields.insert(owned("token_type"), Datum::string("bearer"));
    fields.insert(owned("user"), Datum::Object(user));
    fields.insert(owned("expires_at"), Datum::string(envelope.session.expires_at.as_str()));
    Ok(Datum::Object(fields))
}

} // verus!
