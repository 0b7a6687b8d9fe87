//! What holds of every request: whom it may write for, what it may read, and what it leaves alone.

use vstd::prelude::*;
use crate::api::ApiFailure;
use crate::auth::CallerModel;
use crate::cache::{
    advanced, cache_key_of, refresh_of, replaced_view, stale_from, supplied, view_sql, CacheModel, MaterializedModel,
    PreparationModel, RebuildingModel,
};
use crate::catalog::{AuthModel, DatabaseModel, TableModel};
use crate::gateway::{access_of, authority_of, commit_of, rpc_answer, CommitModel, RpcRequestModel};
use crate::json::Json;
use crate::normalize::{
    aliases_of, factor_admitted, fields_of, normalized, view_factor, walked, walked_fields, walked_items,
    walked_value, with_child, FactorModel, Field, Kind, Many, Names,
};
use crate::ast::statements_of;
use crate::ordmap::{get, get_after_put, has_key, place_from, place_from_range, put, put_all, put_all_from, sorted};
use crate::projection::planned;
use crate::value::{child, items, parts_are_lighter, payload, weight};

verus! {

// ---------------------------------------------------------------------------------------------
// Authority
// ---------------------------------------------------------------------------------------------

/// Full authority comes from the secret key alone, and only while the chain confirms the delegation
/// of the gateway: no token and no other key leads to it.
pub proof fn privilege_needs_secret_and_delegation(
    api_key: Seq<char>,
    authorization: Seq<char>,
    publishable: Seq<char>,
    secret: Seq<char>,
    admin: bool,
    confirmed: bool,
)
    ensures
        match access_of(api_key, authorization, publishable, secret, admin) {
            Ok(access) => match authority_of(access, confirmed) {
                Ok(caller) => caller.context.privileged ==> api_key == secret && confirmed,
                Err(_) => true,
            },
            Err(_) => true,
        },
{
}

/// An administrative endpoint serves nobody without the secret key and a confirmed delegation.
pub proof fn administration_needs_secret(
    api_key: Seq<char>,
    authorization: Seq<char>,
    publishable: Seq<char>,
    secret: Seq<char>,
    confirmed: bool,
)
    ensures
        match access_of(api_key, authorization, publishable, secret, true) {
            Ok(access) => api_key == secret && (authority_of(access, confirmed) is Ok ==> confirmed),
            Err(_) => true,
        },
{
}

/// Writes of a caller without full authority reach the chain only with the session and the signature
/// of that caller; without either there is a refusal, and nothing is written.
pub proof fn writes_need_authority(writes: nat, caller: CallerModel)
    ensures
        match commit_of(writes, caller) {
            Ok(CommitModel::Nothing) => writes == 0,
            Ok(CommitModel::Privileged) => caller.context.privileged && caller.envelope is None,
            Ok(CommitModel::Signed(session, signature)) => caller.envelope is Some && signature
                == caller.envelope->Some_0.signature && crate::auth::session_of(caller.envelope->Some_0.session) == Ok::<
                crate::auth::SessionModel,
                ApiFailure,
            >(session),
            Err(_) => writes > 0,
        },
        writes > 0 && !caller.context.privileged && caller.envelope is None ==> commit_of(writes, caller) is Err,
{
}

/// A function call that is no post and is answered has nothing to write.
pub proof fn only_posts_write(db: DatabaseModel, request: RpcRequestModel, caller: CallerModel)
    requires
        request.method != "POST"@,
    ensures
        match rpc_answer(db, request, caller.context) {
            Ok(answer) => commit_of(planned(db, answer.staged).len(), caller) == Ok::<CommitModel, ApiFailure>(
                CommitModel::Nothing,
            ),
            Err(_) => true,
        },
{
}

// ---------------------------------------------------------------------------------------------
// Read-only queries
// ---------------------------------------------------------------------------------------------

/// Whether every name is that of a table of the catalog.
pub open spec fn in_catalog(db: DatabaseModel, found: Names) -> bool {
    forall|i: int| 0 <= i < found.len() ==> has_key(db.catalog, (#[trigger] found[i]).0)
}

proof fn put_stays_in_catalog(db: DatabaseModel, found: Names, name: Seq<char>)
    requires
        in_catalog(db, found),
        has_key(db.catalog, name),
    ensures
        in_catalog(db, put(found, name, ())),
{
    place_from_range(found, name, 0);
    let place = place_from(found, name, 0);
    let next = put(found, name, ());
    assert forall|i: int| 0 <= i < next.len() implies has_key(db.catalog, (#[trigger] next[i]).0) by {
        if i != place {
            let source = if next.len() == found.len() || i < place {
                i
            } else {
                i - 1
            };
            assert(next[i] == found[source]);
        }
    }
}

proof fn put_all_stays_in_catalog(db: DatabaseModel, found: Names, more: Names, from: int)
    requires
        in_catalog(db, found),
        in_catalog(db, more),
        0 <= from,
    ensures
        in_catalog(db, put_all_from(found, more, from)),
    decreases more.len() - from,
{
    if from < more.len() {
        put_stays_in_catalog(db, found, more[from].0);
        assert(more[from].1 == ());
        put_all_stays_in_catalog(db, put(found, more[from].0, more[from].1), more, from + 1);
    }
}

/// A query that is admitted reads tables of the catalog and nothing else, whatever views it goes
/// through.
pub proof fn admitted_queries_read_the_catalog(
    db: DatabaseModel,
    sql: Seq<char>,
    caller: AuthModel,
    path: Seq<Seq<char>>,
)
    ensures
        match normalized(db, sql, caller, path) {
            Ok((_, found)) => in_catalog(db, found),
            Err(_) => true,
        },
    decreases 64 - path.len(), 2int, 0nat, 0int, 0int,
{
    if path.len() < 64 {
        match statements_of(sql) {
            Ok(list) => {
                if list.len() == 1 {
                    node_reads_catalog(
                        Kind::Query,
                        payload(list[0]),
                        db,
                        caller,
                        path,
                        true,
                        Seq::empty(),
                        Seq::empty(),
                    );
                }
            },
            Err(_) => {},
        }
    }
}

proof fn node_reads_catalog(
    kind: Kind,
    node: Json,
    db: DatabaseModel,
    caller: AuthModel,
    path: Seq<Seq<char>>,
    fresh: bool,
    scopes: Seq<Seq<Seq<char>>>,
    found: Names,
)
    requires
        in_catalog(db, found),
    ensures
        match walked(kind, node, db, caller, path, fresh, scopes, found) {
            Ok((_, more)) => in_catalog(db, more),
            Err(_) => true,
        },
    decreases 64 - path.len(), fresh as int, weight(node), 2int, 0int,
{
    if !(node is Null) {
        if kind == Kind::Query {
            fields_read_catalog(
                node,
                fields_of(kind, node),
                0,
                node,
                db,
                caller,
                path,
                fresh,
                scopes.push(aliases_of(node)),
                found,
            );
        } else if kind == Kind::Factor {
            match factor_admitted(node, db, path, scopes) {
                Ok(FactorModel::Base(relation)) => {
                    put_stays_in_catalog(db, found, relation);
                },
                Ok(FactorModel::View(relation, sql)) => {
                    if fresh && path.len() < 64 {
                        admitted_queries_read_the_catalog(db, sql, caller, path.push(relation));
                        match normalized(db, sql, caller, path.push(relation)) {
                            Ok((query, more)) => {
                                put_all_stays_in_catalog(db, found, more, 0);
                                let derived = view_factor(node, relation, query);
                                fields_read_catalog(
                                    derived,
                                    fields_of(kind, derived),
                                    0,
                                    derived,
                                    db,
                                    caller,
                                    path,
                                    false,
                                    scopes,
                                    put_all(found, more),
                                );
                            },
                            Err(_) => {},
                        }
                    }
                },
                _ => {
                    fields_read_catalog(node, fields_of(kind, node), 0, node, db, caller, path, fresh, scopes, found);
                },
            }
        } else {
            fields_read_catalog(node, fields_of(kind, node), 0, node, db, caller, path, fresh, scopes, found);
        }
    }
}

proof fn fields_read_catalog(
    node: Json,
    fields: Seq<Field>,
    from: int,
    done: Json,
    db: DatabaseModel,
    caller: AuthModel,
    path: Seq<Seq<char>>,
    fresh: bool,
    scopes: Seq<Seq<Seq<char>>>,
    found: Names,
)
    requires
        in_catalog(db, found),
    ensures
        match walked_fields(node, fields, from, done, db, caller, path, fresh, scopes, found) {
            Ok((_, more)) => in_catalog(db, more),
            Err(_) => true,
        },
    decreases 64 - path.len(), fresh as int, weight(node), 1int, fields.len() - from,
{
    parts_are_lighter(node);
    if 0 <= from < fields.len() {
        let (key, kind, many) = fields[from];
        let value = child(node, key);
        if node is Null || value is Null {
            fields_read_catalog(node, fields, from + 1, done, db, caller, path, fresh, scopes, found);
        } else {
            value_reads_catalog(kind, many, value, db, caller, path, fresh, scopes, found);
            match walked_value(kind, many, value, db, caller, path, fresh, scopes, found) {
                Ok((next, more)) => {
                    fields_read_catalog(
                        node,
                        fields,
                        from + 1,
                        with_child(done, key, next),
                        db,
                        caller,
                        path,
                        fresh,
                        scopes,
                        more,
                    );
                },
                Err(_) => {},
            }
        }
    }
}

proof fn value_reads_catalog(
    kind: Kind,
    many: Many,
    value: Json,
    db: DatabaseModel,
    caller: AuthModel,
    path: Seq<Seq<char>>,
    fresh: bool,
    scopes: Seq<Seq<Seq<char>>>,
    found: Names,
)
    requires
        in_catalog(db, found),
    ensures
        match walked_value(kind, many, value, db, caller, path, fresh, scopes, found) {
            Ok((_, more)) => in_catalog(db, more),
            Err(_) => true,
        },
    decreases 64 - path.len(), fresh as int, weight(value), 3int, 0int,
{
    if many == Many::One {
        node_reads_catalog(kind, value, db, caller, path, fresh, scopes, found);
    } else {
        items_read_catalog(kind, many, value, 0, Seq::empty(), db, caller, path, fresh, scopes, found);
    }
}

proof fn items_read_catalog(
    kind: Kind,
    many: Many,
    value: Json,
    from: int,
    done: Seq<Json>,
    db: DatabaseModel,
    caller: AuthModel,
    path: Seq<Seq<char>>,
    fresh: bool,
    scopes: Seq<Seq<Seq<char>>>,
    found: Names,
)
    requires
        in_catalog(db, found),
    ensures
        match walked_items(kind, many, value, from, done, db, caller, path, fresh, scopes, found) {
            Ok((_, more)) => in_catalog(db, more),
            Err(_) => true,
        },
    decreases 64 - path.len(), fresh as int, weight(value), 2int, items(value).len() - from,
{
    parts_are_lighter(value);
    if 0 <= from < items(value).len() {
        let inner = if many == Many::EachOfEach {
            Many::Each
        } else {
            Many::One
        };
        value_reads_catalog(kind, inner, items(value)[from], db, caller, path, fresh, scopes, found);
        match walked_value(kind, inner, items(value)[from], db, caller, path, fresh, scopes, found) {
            Ok((next, more)) => {
                items_read_catalog(
                    kind,
                    many,
                    value,
                    from + 1,
                    done.push(next),
                    db,
                    caller,
                    path,
                    fresh,
                    scopes,
                    more,
                );
            },
            Err(_) => {},
        }
    }
}

// ---------------------------------------------------------------------------------------------
// Built views
// ---------------------------------------------------------------------------------------------

/// A view that was built is used as long as its query, the caller and the definitions stay the same,
/// whatever was written to the tables in between; the preparation goes on after it.
pub proof fn built_views_are_kept(
    cache: CacheModel,
    db: DatabaseModel,
    later: DatabaseModel,
    preparation: PreparationModel,
    caller: AuthModel,
    table: TableModel,
)
    requires
        sorted(cache),
        0 <= preparation.at < preparation.names.len(),
        later.views == db.views,
        later.schema_version == db.schema_version,
    ensures
        ({
            let name = preparation.names[preparation.at];
            let kept = supplied(cache, db, name, caller, table);
            advanced(later, preparation, caller, kept) == advanced(
                later,
                PreparationModel {
                    database: replaced_view(preparation.database, name, table),
                    names: preparation.names,
                    at: preparation.at + 1,
                },
                caller,
                kept,
            )
        }),
{
    let name = preparation.names[preparation.at];
    let definition = view_sql(db, name);
    let key = cache_key_of(name, definition, caller, db.schema_version);
    get_after_put(cache, key, MaterializedModel { name, definition, context: caller, table }, key);
}

proof fn stale_covers(
    cache: CacheModel,
    name: Seq<char>,
    sql: Seq<char>,
    from: int,
    done: Seq<RebuildingModel>,
    i: int,
)
    requires
        0 <= from,
        0 <= i < cache.len(),
        cache[i].1.name == name,
        cache[i].1.definition == sql,
        i < from ==> done.contains(RebuildingModel { key: cache[i].0, context: cache[i].1.context }),
    ensures
        stale_from(cache, name, sql, from, done).contains(
            RebuildingModel { key: cache[i].0, context: cache[i].1.context },
        ),
    decreases cache.len() - from,
{
    if from < cache.len() {
        let item = RebuildingModel { key: cache[i].0, context: cache[i].1.context };
        let here = RebuildingModel { key: cache[from].0, context: cache[from].1.context };
        if cache[from].1.name == name && cache[from].1.definition == sql {
            let more = done.push(here);
            if i == from {
                assert(more[done.len() as int] == item);
            } else if i < from {
                let at = choose|k: int| 0 <= k < done.len() && done[k] == item;
                assert(more[at] == item);
            }
            stale_covers(cache, name, sql, from + 1, more, i);
        } else {
            stale_covers(cache, name, sql, from + 1, done, i);
        }
    }
}

/// A refresh of a materialized view builds it anew for everyone for whom it was built: no entry of
/// the view stays as it was.
pub proof fn refresh_covers_every_caller(
    db: DatabaseModel,
    name: Seq<char>,
    caller: AuthModel,
    cache: CacheModel,
    i: int,
)
    requires
        0 <= i < cache.len(),
        cache[i].1.name == name,
        cache[i].1.definition == view_sql(db, name),
    ensures
        match refresh_of(db, name, caller, cache) {
            Ok(list) => list.contains(RebuildingModel { key: cache[i].0, context: cache[i].1.context }),
            Err(_) => !(get(db.views, name) is Some && get(db.views, name)->Some_0.materialized),
        },
{
    match get(db.views, name) {
        Some(view) => {
            stale_covers(cache, name, view.sql, 0, Seq::empty(), i);
            let list = stale_from(cache, name, view.sql, 0, Seq::empty());
            let item = RebuildingModel { key: cache[i].0, context: cache[i].1.context };
            let at = choose|k: int| 0 <= k < list.len() && list[k] == item;
            let own = RebuildingModel {
                key: cache_key_of(name, view.sql, caller, db.schema_version),
                context: caller,
            };
            assert(list.push(own)[at] == item);
        },
        None => {},
    }
}

} // verus!
