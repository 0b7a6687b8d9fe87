//! Materialized views: what a query needs of them, and when they are built and built anew.

use vstd::prelude::*;
use vstd::utf8::encode_utf8;
use crate::api::{answered, mistake, refusal, Answer, ApiError, ApiOutcome};
use crate::ast::{parse_statements, relations, relations_of, statements_of, table_name, table_name_of};
use crate::auth::{hex, hex_of};
use crate::catalog::{AuthContext, AuthModel, Database, DatabaseModel, Table, TableModel};
use crate::chain::bytes_of;
use crate::encode::{name_layout, unsigned_json, write_layout, Encode};
use crate::guards::{solid_from, solid_tokens};
use crate::json::{group_value_views, Datum, Json};
use crate::layout::{layout_text, Layout, LayoutModel};
use crate::ordmap::{del, get, put, OrdMap};
use crate::outside::{keccak, keccak_of, lower, read_tokens, tokens_read};
use crate::replica::{add_last, no_items, Replica};
use crate::text::{alike, cat3, is_alike, is_listed, listed, owned, same};
use crate::value::{child, payload, tag, text};

verus! {

broadcast use {group_value_views, crate::layout::group_layout_views};

/// A built view: its name, its query, for whom it was built, and its rows.
pub struct Materialized {
    pub name: String,
    pub definition: String,
    pub context: AuthContext,
    pub table: Table,
}

/// [`Materialized`] in specifications.
pub struct MaterializedModel {
    pub name: Seq<char>,
    pub definition: Seq<char>,
    pub context: AuthModel,
    pub table: TableModel,
}

impl DeepView for Materialized {
    type V = MaterializedModel;

    open spec fn deep_view(&self) -> MaterializedModel {
        MaterializedModel {
            name: self.name@,
            definition: self.definition@,
            context: self.context.deep_view(),
            table: self.table.deep_view(),
        }
    }
}

/// Built views by their keys.
pub type Cache = OrdMap<String, Materialized>;

/// [`Cache`] in specifications.
pub type CacheModel = Seq<(Seq<char>, MaterializedModel)>;

/// What a key is the hash of: the query, the caller, and the version of the definitions.
pub open spec fn key_layout(sql: Seq<char>, caller: AuthModel, schema_version: u64) -> LayoutModel {
    LayoutModel::List(
        seq![
            name_layout(sql),
            AuthContext::layout_of(caller),
            LayoutModel::Leaf(unsigned_json(schema_version)),
        ],
    )
}

/// The key of a built view. A built view is kept across writes of rows until it is built anew; a
/// change of the caller, of the query or of any definition leads to another key.
pub open spec fn cache_key_of(name: Seq<char>, sql: Seq<char>, caller: AuthModel, schema_version: u64) -> Seq<char> {
    name + ":"@ + hex_of(keccak_of(encode_utf8(layout_text(key_layout(sql, caller, schema_version)))))
}

/// The key of a built view.
pub fn cache_key(name: &str, sql: &str, context: &AuthContext, schema_version: u64) -> (result: String)
    ensures
        result@ == cache_key_of(name@, sql@, context.deep_view(), schema_version),
{
    let mut list: Vec<Layout> = Vec::new();
    list.push(Layout::Leaf(Datum::string(sql)));
    list.push(context.layout());
    list.push(schema_version.layout());
    assert(list.deep_view() =~= key_layout(sql@, context.deep_view(), schema_version)->List_0);
    let written = write_layout(&Layout::List(list));
    let hash = keccak(&bytes_of(written.as_str()));
    cat3(name, ":", hex(&hash).as_str())
}

// ---------------------------------------------------------------------------------------------
// Views that a query needs
// ---------------------------------------------------------------------------------------------

/// The local names among relations from position `from` on, after those in `done`.
pub open spec fn local_names_from(found: Seq<Json>, from: int, done: Seq<Seq<char>>) -> Seq<Seq<char>>
    decreases found.len() - from,
{
    if from < 0 || from >= found.len() {
        done
    } else {
        local_names_from(
            found,
            from + 1,
            match table_name_of(found[from]) {
                Ok(name) => done.push(name),
                Err(_) => done,
            },
        )
    }
}

fn local_names(found: &Vec<Datum>, done: Vec<String>) -> (result: Vec<String>)
    ensures
        result.deep_view() == local_names_from(found.deep_view(), 0, done.deep_view()),
{
    let mut names = done;
    let ghost first = done.deep_view();
    let ghost model = found.deep_view();
    let mut i: usize = 0;
    while i < found.len()
        invariant
            i <= found.len(),
            model == found.deep_view(),
            local_names_from(model, 0, first) == local_names_from(model, i as int, names.deep_view()),
        decreases found.len() - i,
    {
        assert(model[i as int] == found[i as int]@);
        match table_name(&found[i]) {
            Ok(name) => {
                add_last(&mut names, name);
            },
            Err(_) => {},
        }
        i += 1;
    }
    names
}

/// The local names in the statements from position `from` on, after those in `done`.
pub open spec fn named_from(list: Seq<Json>, from: int, done: Seq<Seq<char>>) -> Seq<Seq<char>>
    decreases list.len() - from,
{
    if from < 0 || from >= list.len() {
        done
    } else {
        named_from(list, from + 1, local_names_from(relations_of(list[from]), 0, done))
    }
}

fn named(list: &Vec<Datum>) -> (result: Vec<String>)
    ensures
        result.deep_view() == named_from(list.deep_view(), 0, Seq::empty()),
{
    let mut names: Vec<String> = no_items();
    let ghost model = list.deep_view();
    let mut i: usize = 0;
    while i < list.len()
        invariant
            i <= list.len(),
            model == list.deep_view(),
            named_from(model, 0, Seq::empty()) == named_from(model, i as int, names.deep_view()),
        decreases list.len() - i,
    {
        assert(model[i as int] == list[i as int]@);
        names = local_names(&relations(&list[i]), names);
        i += 1;
    }
    names
}

/// The materialized views that a query needs, each after those that it needs itself, put after those
/// in `done`. `path` names the views that led here.
pub open spec fn needed(
    db: DatabaseModel,
    sql: Seq<char>,
    path: Seq<Seq<char>>,
    done: Seq<Seq<char>>,
) -> ApiOutcome<Seq<Seq<char>>>
    decreases 66 - path.len(), 1int, 0int,
{
    match statements_of(sql) {
        Err(_) => Err(mistake("Invalid view definition"@)),
        Ok(list) => needed_from(db, named_from(list, 0, Seq::empty()), 0, path, done),
    }
}

/// The materialized views that the names from position `from` on need.
pub open spec fn needed_from(
    db: DatabaseModel,
    names: Seq<Seq<char>>,
    from: int,
    path: Seq<Seq<char>>,
    done: Seq<Seq<char>>,
) -> ApiOutcome<Seq<Seq<char>>>
    decreases 66 - path.len(), 0int, names.len() - from,
{
    if from < 0 || from >= names.len() {
        Ok(done)
    } else {
        match get(db.views, names[from]) {
            None => needed_from(db, names, from + 1, path, done),
            Some(view) => if listed(path, names[from]) || path.len() > 64 {
                Err(mistake("Cyclic or deeply nested view"@))
            } else {
                match needed(db, view.sql, path.push(names[from]), done) {
                    Err(error) => Err(error),
                    Ok(more) => needed_from(
                        db,
                        names,
                        from + 1,
                        path,
                        if view.materialized && !listed(more, names[from]) {
                            more.push(names[from])
                        } else {
                            more
                        },
                    ),
                }
            },
        }
    }
}

/// The materialized views that a query needs, each after those that it needs itself, put after those
/// in `done`. `path` names the views that led here.
#[verifier::loop_isolation(false)]
fn dependencies(db: &Database, sql: &str, path: &Vec<String>, done: Vec<String>) -> (result: Answer<Vec<String>>)
    requires
        path.len() <= 65,
    ensures
        answered(result) == needed(db.deep_view(), sql@, path.deep_view(), done.deep_view()),
    decreases 66 - path.len(),
{
    let list = match parse_statements(sql) {
        Ok(list) => list,
        Err(_) => {
            return Err(ApiError::invalid("Invalid view definition"));
        },
    };
    let names = named(&list);
    let ghost model = names.deep_view();
    let ghost first = done.deep_view();
    let ghost d = db.deep_view();
    let ghost p = path.deep_view();
    let mut done = done;
    let mut i: usize = 0;
    while i < names.len()
        invariant
            i <= names.len(),
            needed_from(d, model, 0, p, first) == needed_from(d, model, i as int, p, done.deep_view()),
        decreases names.len() - i,
    {
        assert(model[i as int] == names[i as int]@);
        match db.views.get(&names[i]) {
            None => {},
            Some(view) => {
                if is_listed(path, names[i].as_str()) || path.len() > 64 {
                    return Err(ApiError::invalid("Cyclic or deeply nested view"));
                }
                let mut longer = path.replica();
                add_last(&mut longer, names[i].clone());
                done = dependencies(db, view.sql.as_str(), &longer, done)?;
                if view.materialized && !is_listed(&done, names[i].as_str()) {
                    add_last(&mut done, names[i].clone());
                }
            },
        }
        i += 1;
    }
    Ok(done)
}

// ---------------------------------------------------------------------------------------------
// Preparing a query
// ---------------------------------------------------------------------------------------------

/// A state whose materialized views give way to built ones, one after another.
pub struct Preparation {
    pub database: Database,
    pub names: Vec<String>,
    /// How many of the views are in place.
    pub at: usize,
}

/// [`Preparation`] in specifications.
pub struct PreparationModel {
    pub database: DatabaseModel,
    pub names: Seq<Seq<char>>,
    pub at: int,
}

impl DeepView for Preparation {
    type V = PreparationModel;

    open spec fn deep_view(&self) -> PreparationModel {
        PreparationModel {
            database: self.database.deep_view(),
            names: self.names.deep_view(),
            at: self.at as int,
        }
    }
}

/// The beginning of a preparation.
pub open spec fn begun(db: DatabaseModel, sql: Seq<char>) -> ApiOutcome<PreparationModel> {
    match needed(db, sql, Seq::empty(), Seq::empty()) {
        Err(error) => Err(error),
        Ok(names) => Ok(PreparationModel { database: db, names, at: 0 }),
    }
}

/// The beginning of a preparation.
pub fn begin(db: &Database, sql: &str) -> (result: Answer<Preparation>)
    ensures
        answered(result) == begun(db.deep_view(), sql@),
        match result {
            Ok(begun) => begun.at == 0,
            Err(_) => true,
        },
{
    let none: Vec<String> = no_items();
    let names = dependencies(db, sql, &none, no_items())?;
    Ok(Preparation { database: db.replica(), names, at: 0 })
}

/// A state in which a built view stands for a view.
pub open spec fn replaced_view(database: DatabaseModel, name: Seq<char>, table: TableModel) -> DatabaseModel {
    DatabaseModel { views: del(database.views, name), catalog: put(database.catalog, name, table), ..database }
}

/// The query of a view.
pub open spec fn view_sql(db: DatabaseModel, name: Seq<char>) -> Seq<char> {
    match get(db.views, name) {
        Some(view) => view.sql,
        None => Seq::empty(),
    }
}

/// A preparation after every view up to the first that is not built.
pub open spec fn advanced(db: DatabaseModel, preparation: PreparationModel, caller: AuthModel, cache: CacheModel) -> PreparationModel
    decreases preparation.names.len() - preparation.at,
{
    if preparation.at < 0 || preparation.at >= preparation.names.len() {
        preparation
    } else {
        let name = preparation.names[preparation.at];
        match get(cache, cache_key_of(name, view_sql(db, name), caller, db.schema_version)) {
            None => preparation,
            Some(built) => advanced(
                db,
                PreparationModel {
                    database: replaced_view(preparation.database, name, built.table),
                    names: preparation.names,
                    at: preparation.at + 1,
                },
                caller,
                cache,
            ),
        }
    }
}

fn sql_of_view(db: &Database, name: &String) -> (result: String)
    ensures
        result@ == view_sql(db.deep_view(), name@),
{
    match db.views.get(name) {
        Some(view) => view.sql.clone(),
        None => {
            let none = crate::text::nothing();
            assert(none@ =~= Seq::<char>::empty());
            none
        },
    }
}

/// A preparation after every view up to the first that is not built.
#[verifier::loop_isolation(false)]
pub fn advance(db: &Database, preparation: Preparation, context: &AuthContext, cache: &Cache) -> (result: Preparation)
    requires
        preparation.at <= preparation.names.len(),
    ensures
        result.deep_view() == advanced(
            db.deep_view(),
            preparation.deep_view(),
            context.deep_view(),
            cache@,
        ),
        result.at <= result.names.len(),
{
    let ghost d = db.deep_view();
    let ghost c = context.deep_view();
    let ghost first = preparation.deep_view();
    let names = preparation.names;
    let mut database = preparation.database;
    let mut at: usize = preparation.at;
    let ghost model = names.deep_view();
    while at < names.len()
        invariant
            at <= names.len(),
            advanced(d, first, c, cache@) == advanced(
                d,
                PreparationModel { database: database.deep_view(), names: model, at: at as int },
                c,
                cache@,
            ),
        decreases names.len() - at,
    {
        assert(model[at as int] == names[at as int]@);
        let sql = sql_of_view(db, &names[at]);
        let key = cache_key(names[at].as_str(), sql.as_str(), context, db.schema_version);
        match cache.get(&key) {
            None => {
                return Preparation { database, names, at };
            },
            Some(built) => {
                let _ = database.views.remove(&names[at]);
                database.catalog.insert(names[at].clone(), built.table.replica());
            },
        }
        at += 1;
    }
    Preparation { database, names, at }
}

/// The view that a preparation waits for: its name and its query.
pub open spec fn awaited_of(db: DatabaseModel, preparation: PreparationModel) -> Option<(Seq<char>, Seq<char>)> {
    if 0 <= preparation.at < preparation.names.len() {
        let name = preparation.names[preparation.at];
        Some((name, view_sql(db, name)))
    } else {
        None
    }
}

/// The view that a preparation waits for: its name and its query.
pub fn awaited(db: &Database, preparation: &Preparation) -> (result: Option<(String, String)>)
    ensures
        result.deep_view() == awaited_of(db.deep_view(), preparation.deep_view()),
{
    if preparation.at < preparation.names.len() {
        let name = &preparation.names[preparation.at];
        assert(preparation.names.deep_view()[preparation.at as int] == name@);
        Some((name.clone(), sql_of_view(db, name)))
    } else {
        None
    }
}

/// The cache after a view was built for a caller.
pub open spec fn supplied(
    cache: CacheModel,
    db: DatabaseModel,
    name: Seq<char>,
    caller: AuthModel,
    table: TableModel,
) -> CacheModel {
    let definition = view_sql(db, name);
    put(
        cache,
        cache_key_of(name, definition, caller, db.schema_version),
        MaterializedModel { name, definition, context: caller, table },
    )
}

/// Keeps a view that was built for a caller.
pub fn supply(cache: &mut Cache, db: &Database, name: &String, context: &AuthContext, table: Table)
    ensures
        final(cache)@ == supplied(
            old(cache)@,
            db.deep_view(),
            name@,
            context.deep_view(),
            table.deep_view(),
        ),
{
    let definition = sql_of_view(db, name);
    let key = cache_key(name.as_str(), definition.as_str(), context, db.schema_version);
    cache.insert(
        key,
        Materialized { name: name.clone(), definition, context: context.replica(), table },
    );
}

// ---------------------------------------------------------------------------------------------
// Commands
// ---------------------------------------------------------------------------------------------

/// Who runs a statement.
#[derive(Debug, PartialEq, Eq)]
pub enum Command {
    /// The materialized view of this name is built anew.
    Refresh(String),
    /// The query engine runs it.
    Query,
    /// The transactional core runs it.
    Core,
}

/// [`Command`] in specifications.
pub enum CommandModel {
    Refresh(Seq<char>),
    Query,
    Core,
}

impl DeepView for Command {
    type V = CommandModel;

    open spec fn deep_view(&self) -> CommandModel {
        match *self {
            Command::Refresh(name) => CommandModel::Refresh(name@),
            Command::Query => CommandModel::Query,
            Command::Core => CommandModel::Core,
        }
    }
}

/// The tokens of a text without blanks, comments and a semicolon at the end; none where the text has
/// no tokens.
pub open spec fn solid(sql: Seq<char>) -> Seq<Json> {
    let tokens = match tokens_read(sql, true) {
        Ok(tokens) => solid_from(tokens, 0, Seq::empty()),
        Err(_) => Seq::empty(),
    };
    if tokens.len() > 0 && tag(tokens.last()) == "SemiColon"@ {
        tokens.drop_last()
    } else {
        tokens
    }
}

fn command_tokens(sql: &str) -> (result: Vec<Datum>)
    ensures
        result.deep_view() == solid(sql@),
{
    let mut done: Vec<Datum> = match read_tokens(sql, true) {
        Ok(list) => solid_tokens(&list),
        Err(_) => no_items(),
    };
    let ghost model = done.deep_view();
    if done.len() > 0 {
        assert(model.last() == done[done.len() - 1]@);
        if done[done.len() - 1].is("SemiColon") {
            let _ = done.pop();
            assert(done.deep_view() =~= model.drop_last());
        }
    }
    done
}

/// Whether a token is an unquoted word, in any case of its letters.
pub open spec fn word_is(token: Json, expected: Seq<char>) -> bool {
    tag(token) == "Word"@ && child(payload(token), "quote_style"@) is Null && alike(
        text(child(payload(token), "value"@)),
        expected,
    )
}

fn is_word(token: &Datum, expected: &str) -> (result: bool)
    ensures
        result == word_is(token@, expected@),
{
    token.is("Word") && token.payload().child("quote_style").is_null() && is_alike(
        token.payload().child("value").text(),
        expected,
    )
}

/// The name that a word stands for: folded to lower case unless it is quoted.
pub open spec fn word_name(token: Json) -> Seq<char> {
    let value = text(child(payload(token), "value"@));
    if child(payload(token), "quote_style"@) is Null {
        lower(value)
    } else {
        value
    }
}

fn name_word(token: &Datum) -> (result: String)
    ensures
        result@ == word_name(token@),
{
    let value = token.payload().child("value").text();
    if token.payload().child("quote_style").is_null() {
        value.to_lowercase()
    } else {
        owned(value)
    }
}

/// The view that the tokens after `REFRESH MATERIALIZED VIEW` name.
pub open spec fn refresh_name(tokens: Seq<Json>) -> Option<Seq<char>> {
    if tokens.len() == 4 && tag(tokens[3]) == "Word"@ {
        Some(word_name(tokens[3]))
    } else if tokens.len() == 6 && tag(tokens[3]) == "Word"@ && tag(tokens[4]) == "Period"@ && tag(tokens[5])
        == "Word"@ && alike(text(child(payload(tokens[3]), "value"@)), "public"@) {
        Some(word_name(tokens[5]))
    } else {
        None
    }
}

/// Who runs a text for a caller.
pub open spec fn command_of(sql: Seq<char>, caller: AuthModel) -> ApiOutcome<CommandModel> {
    let tokens = solid(sql);
    if tokens.len() > 0 && word_is(tokens[0], "REFRESH"@) {
        if tokens.len() < 3 || !word_is(tokens[1], "MATERIALIZED"@) || !word_is(tokens[2], "VIEW"@) {
            Err(mistake("Expected REFRESH MATERIALIZED VIEW name"@))
        } else {
            match refresh_name(tokens) {
                None => Err(
                    mistake("Refresh requires one local view name; CONCURRENTLY is unsupported"@),
                ),
                Some(name) => if !caller.privileged {
                    Err(refusal("Materialized view refresh requires administrative authority"@))
                } else {
                    Ok(CommandModel::Refresh(name))
                },
            }
        }
    } else {
        match statements_of(sql) {
            Err(_) => Ok(CommandModel::Core),
            Ok(list) => if list.len() == 1 && tag(list[0]) == "Query"@ {
                Ok(CommandModel::Query)
            } else {
                Ok(CommandModel::Core)
            },
        }
    }
}

/// Who runs a text for a caller.
pub fn command(sql: &str, context: &AuthContext) -> (result: Answer<Command>)
    ensures
        answered(result) == command_of(sql@, context.deep_view()),
{
    let tokens = command_tokens(sql);
    let ghost model = tokens.deep_view();
    assert(forall|i: int| 0 <= i < tokens.len() ==> #[trigger] model[i] == tokens[i]@);
    if tokens.len() > 0 && is_word(&tokens[0], "REFRESH") {
        if tokens.len() < 3 || !is_word(&tokens[1], "MATERIALIZED") || !is_word(&tokens[2], "VIEW") {
            return Err(ApiError::invalid("Expected REFRESH MATERIALIZED VIEW name"));
        }
        let name = if tokens.len() == 4 && tokens[3].is("Word") {
            name_word(&tokens[3])
        } else if tokens.len() == 6 && tokens[3].is("Word") && tokens[4].is("Period") && tokens[5].is("Word")
            && is_alike(tokens[3].payload().child("value").text(), "public") {
            name_word(&tokens[5])
        } else {
            return Err(
                ApiError::invalid("Refresh requires one local view name; CONCURRENTLY is unsupported"),
            );
        };
        if !context.privileged {
            return Err(
                ApiError::unauthorized("Materialized view refresh requires administrative authority"),
            );
        }
        return Ok(Command::Refresh(name));
    }
    match parse_statements(sql) {
        Err(_) => Ok(Command::Core),
        Ok(list) => {
            if list.len() == 1 {
                assert(list.deep_view()[0] == list[0]@);
                if list[0].is("Query") {
                    return Ok(Command::Query);
                }
            }
            Ok(Command::Core)
        },
    }
}

// ---------------------------------------------------------------------------------------------
// Refreshing
// ---------------------------------------------------------------------------------------------

/// A built view to build anew: its key, and for whom.
pub struct Rebuilding {
    pub key: String,
    pub context: AuthContext,
}

/// [`Rebuilding`] in specifications.
pub struct RebuildingModel {
    pub key: Seq<char>,
    pub context: AuthModel,
}

impl DeepView for Rebuilding {
    type V = RebuildingModel;

    open spec fn deep_view(&self) -> RebuildingModel {
        RebuildingModel { key: self.key@, context: self.context.deep_view() }
    }
}

/// The built views of a name and query from position `from` on, after those in `done`.
pub open spec fn stale_from(
    cache: CacheModel,
    name: Seq<char>,
    sql: Seq<char>,
    from: int,
    done: Seq<RebuildingModel>,
) -> Seq<RebuildingModel>
    decreases cache.len() - from,
{
    if from < 0 || from >= cache.len() {
        done
    } else {
        stale_from(
            cache,
            name,
            sql,
            from + 1,
            if cache[from].1.name == name && cache[from].1.definition == sql {
                done.push(RebuildingModel { key: cache[from].0, context: cache[from].1.context })
            } else {
                done
            },
        )
    }
}

/// Whether a key is among those to build anew.
pub open spec fn keyed(list: Seq<RebuildingModel>, key: Seq<char>) -> bool {
    exists|i: int| 0 <= i < list.len() && (#[trigger] list[i]).key == key
}

/// What a refresh builds anew: the view for everyone for whom it was built, and for the caller.
pub open spec fn refresh_of(db: DatabaseModel, name: Seq<char>, caller: AuthModel, cache: CacheModel) -> ApiOutcome<
    Seq<RebuildingModel>,
> {
    match get(db.views, name) {
        None => Err(mistake("Unknown materialized view"@)),
        Some(view) => if !view.materialized {
            Err(mistake("Unknown materialized view"@))
        } else {
            let list = stale_from(cache, name, view.sql, 0, Seq::empty());
            let own = cache_key_of(name, view.sql, caller, db.schema_version);
            if keyed(list, own) {
                Ok(list)
            } else {
                Ok(list.push(RebuildingModel { key: own, context: caller }))
            }
        },
    }
}

fn stale(cache: &Cache, name: &str, sql: &str) -> (result: Vec<Rebuilding>)
    ensures
        result.deep_view() == stale_from(cache@, name@, sql@, 0, Seq::empty()),
{
    let mut done: Vec<Rebuilding> = no_items();
    let mut i: usize = 0;
    while i < cache.len()
        invariant
            i <= cache@.len(),
            stale_from(cache@, name@, sql@, 0, Seq::empty()) == stale_from(
                cache@,
                name@,
                sql@,
                i as int,
                done.deep_view(),
            ),
        decreases cache@.len() - i,
    {
        let built = cache.value_at(i);
        if same(built.name.as_str(), name) && same(built.definition.as_str(), sql) {
            add_last(
                &mut done,
                Rebuilding { key: cache.key_at(i).clone(), context: built.context.replica() },
            );
        }
        i += 1;
    }
    done
}

fn is_keyed(list: &Vec<Rebuilding>, key: &str) -> (result: bool)
    ensures
        result == keyed(list.deep_view(), key@),
{
    let ghost model = list.deep_view();
    let mut i: usize = 0;
    while i < list.len()
        invariant
            i <= list.len(),
            model == list.deep_view(),
            forall|j: int| 0 <= j < i ==> (#[trigger] model[j]).key != key@,
        decreases list.len() - i,
    {
        assert(model[i as int] == list[i as int].deep_view());
        if same(list[i].key.as_str(), key) {
            return true;
        }
        i += 1;
    }
    false
}

/// What a refresh builds anew: the view for everyone for whom it was built, and for the caller.
pub fn refresh(db: &Database, name: &String, context: &AuthContext, cache: &Cache) -> (result: Answer<Vec<Rebuilding>>)
    ensures
        answered(result) == refresh_of(db.deep_view(), name@, context.deep_view(), cache@),
{
    match db.views.get(name) {
        None => Err(ApiError::invalid("Unknown materialized view")),
        Some(view) => {
            if !view.materialized {
                return Err(ApiError::invalid("Unknown materialized view"));
            }
            let mut list = stale(cache, name.as_str(), view.sql.as_str());
            let own = cache_key(name.as_str(), view.sql.as_str(), context, db.schema_version);
            if !is_keyed(&list, own.as_str()) {
                add_last(&mut list, Rebuilding { key: own, context: context.replica() });
            }
            Ok(list)
        },
    }
}

/// The cache with a view built anew.
pub open spec fn renewed(
    cache: CacheModel,
    db: DatabaseModel,
    name: Seq<char>,
    item: RebuildingModel,
    table: TableModel,
) -> CacheModel {
    put(
        cache,
        item.key,
        MaterializedModel { name, definition: view_sql(db, name), context: item.context, table },
    )
}

/// Keeps a view that was built anew.
pub fn renew(cache: &mut Cache, db: &Database, name: &String, item: Rebuilding, table: Table)
    ensures
        final(cache)@ == renewed(old(cache)@, db.deep_view(), name@, item.deep_view(), table.deep_view()),
{
    let definition = sql_of_view(db, name);
    cache.insert(
        item.key,
        Materialized { name: name.clone(), definition, context: item.context, table },
    );
}

} // verus!
