//! What the statements of row-level security do.

use vstd::prelude::*;
use crate::catalog::{AuthModel, DatabaseModel, PolicyModel, TableModel};
use crate::mutations::one_table_changes;
use crate::ordmap::{get, sorted};
use crate::policy::{
    clause_read, clauses_read_from, plain_policy, policy_created, policy_executed, policy_named, policy_read,
    security_switched, switch_from,
};
use crate::text::listed;
use crate::words::{upper_all, word_is};

verus! {

proof fn first_switch(upper: Seq<Seq<char>>, from: int)
    requires
        0 <= from <= upper.len(),
    ensures
        from <= switch_from(upper, from) <= upper.len(),
        switch_from(upper, from) < upper.len() ==> upper[switch_from(upper, from)] == "ENABLE"@ || upper[switch_from(
            upper,
            from,
        )] == "DISABLE"@,
    decreases upper.len() - from,
{
    if from < upper.len() && upper[from] != "ENABLE"@ && upper[from] != "DISABLE"@ {
        first_switch(upper, from + 1);
    }
}

/// Whether a table follows another in whether row-level security is on, and in nothing else.
pub open spec fn switched(table: TableModel, after: TableModel, on: bool) -> bool {
    after.rls_enabled == on && after == TableModel { rls_enabled: after.rls_enabled, ..table }
}

/// ALTER TABLE with ENABLE as its fourth word from the end turns row-level security on, and with DISABLE turns
/// it off, for one table; no other table changes, and nothing else of this one.
pub proof fn security_is_switched_as_told(database: DatabaseModel, words: Seq<Seq<char>>)
    requires
        sorted(database.catalog),
    ensures
        security_switched(database, words) matches Ok(next) ==> {
            let upper = upper_all(words);
            &&& upper.len() >= 7
            &&& upper[upper.len() - 4] == "ENABLE"@ || upper[upper.len() - 4] == "DISABLE"@
            &&& upper[upper.len() - 3] == "ROW"@ && upper[upper.len() - 2] == "LEVEL"@ && upper[upper.len() - 1]
                == "SECURITY"@
            &&& exists|name: Seq<char>| #[trigger] only_changed(database, next, name) && switched(
                get(database.catalog, name)->0,
                get(next.catalog, name)->0,
                upper[upper.len() - 4] != "DISABLE"@,
            )
        },
{
    match security_switched(database, words) {
        Err(_) => {},
        Ok(next) => {
            let upper = upper_all(words);
            first_switch(upper, 0);
            let action = switch_from(upper, 0);
            let name = crate::ast::relation_of(crate::words::phrase(words, 2, action))->Ok_0;
            let table = get(database.catalog, name)->0;
            reveal_strlit("ENABLE");
            reveal_strlit("DISABLE");
            assert("ENABLE"@.len() != "DISABLE"@.len());
            let after = TableModel { rls_enabled: upper[action] == "ENABLE"@, ..table };
            one_table_changes(database, name, after);
            assert(only_changed(database, next, name));
        },
    }
}

/// Whether two states have the same tables but for one, which both have.
pub open spec fn only_changed(database: DatabaseModel, next: DatabaseModel, name: Seq<char>) -> bool {
    &&& get(database.catalog, name) is Some && get(next.catalog, name) is Some
    &&& forall|other: Seq<char>| other != name ==> #[trigger] get(next.catalog, other) == get(database.catalog, other)
}

/// CREATE POLICY adds one policy to one table, under a name that no policy of the table has; nothing else
/// changes.
pub proof fn created_policies_are_added(database: DatabaseModel, words: Seq<Seq<char>>, caller: AuthModel)
    requires
        sorted(database.catalog),
    ensures
        policy_created(database, words, caller) matches Ok(next) ==> (policy_read(words) matches Ok((policy, name))
            && only_changed(database, next, name) && {
            let table = get(database.catalog, name)->0;
            let after = get(next.catalog, name)->0;
            &&& after == TableModel { policies: after.policies, ..table }
            &&& after.policies.len() == table.policies.len() + 1 && after.policies.last() == policy
            &&& forall|i: int|
                0 <= i < table.policies.len() ==> #[trigger] after.policies[i] == table.policies[i] && table.policies[i].name
                    != policy.name
        }),
{
    match policy_created(database, words, caller) {
        Err(_) => {},
        Ok(next) => {
            let (policy, name) = policy_read(words)->Ok_0;
            let table = get(database.catalog, name)->0;
            let after = TableModel { policies: table.policies.push(policy), ..table };
            one_table_changes(database, name, after);
            assert(only_changed(database, next, name));
            assert forall|i: int| 0 <= i < table.policies.len() implies #[trigger] after.policies[i] == table.policies[i]
                && table.policies[i].name != policy.name by {
                assert(!policy_named(table.policies, policy.name));
            }
        },
    }
}

/// Whether a policy follows from another by one clause, of which only its own part changes.
pub open spec fn clause_says(
    words: Seq<Seq<char>>,
    upper: Seq<Seq<char>>,
    clause: Seq<char>,
    at: int,
    policy: PolicyModel,
    next: PolicyModel,
) -> bool {
    &&& next.name == policy.name
    &&& clause != "AS"@ ==> next.permissive == policy.permissive
    &&& clause != "FOR"@ ==> next.command == policy.command
    &&& clause != "TO"@ ==> next.roles == policy.roles
    &&& clause != "USING"@ ==> next.using == policy.using
    &&& clause != "WITH"@ ==> next.check == policy.check
    &&& clause == "AS"@ ==> (next.permissive ==> word_is(upper, at, "PERMISSIVE"@)) && (!next.permissive ==> word_is(
        upper,
        at,
        "RESTRICTIVE"@,
    ))
    &&& clause == "FOR"@ ==> word_is(upper, at, next.command)
    &&& clause == "TO"@ ==> next.roles.len() > 0
    &&& clause == "USING"@ ==> next.using is Some
    &&& clause == "WITH"@ ==> next.check is Some && word_is(upper, at, "CHECK"@)
}

/// A clause of a policy says only what it is for: AS whether it permits or restricts, FOR the command, TO the
/// roles, USING and WITH CHECK the expressions.
pub proof fn clauses_say_what_they_are_for(
    words: Seq<Seq<char>>,
    upper: Seq<Seq<char>>,
    clause: Seq<char>,
    at: int,
    policy: PolicyModel,
)
    requires
        0 <= at,
    ensures
        clause_read(words, upper, clause, at, policy) matches Ok((next, _)) ==> clause_says(
            words,
            upper,
            clause,
            at,
            policy,
            next,
        ),
{
    reveal_strlit("AS");
    reveal_strlit("FOR");
    reveal_strlit("TO");
    reveal_strlit("USING");
    reveal_strlit("WITH");
    assert("AS"@[0] == 'A' && "TO"@[0] == 'T' && "FOR"@.len() == 3 && "USING"@.len() == 5 && "WITH"@.len() == 4
        && "AS"@.len() == 2 && "TO"@.len() == 2);
}

/// Whether no word from a position on is this one.
pub open spec fn unsaid(upper: Seq<Seq<char>>, from: int, word: Seq<char>) -> bool {
    forall|i: int| from <= i < upper.len() ==> #[trigger] upper[i] != word
}

proof fn unsaid_stays(
    words: Seq<Seq<char>>,
    upper: Seq<Seq<char>>,
    from: int,
    policy: PolicyModel,
    seen: Seq<Seq<char>>,
)
    requires
        0 <= from,
    ensures
        clauses_read_from(words, upper, from, policy, seen) matches Ok(done) ==> {
            &&& done.name == policy.name
            &&& unsaid(upper, from, "AS"@) ==> done.permissive == policy.permissive
            &&& unsaid(upper, from, "FOR"@) ==> done.command == policy.command
            &&& unsaid(upper, from, "TO"@) ==> done.roles == policy.roles
            &&& unsaid(upper, from, "USING"@) ==> done.using == policy.using
            &&& unsaid(upper, from, "WITH"@) ==> done.check == policy.check
        },
    decreases words.len() - from,
{
    if from < words.len() && words.len() == upper.len() && !listed(seen, upper[from]) {
        clauses_say_what_they_are_for(words, upper, upper[from], from + 1, policy);
        match clause_read(words, upper, upper[from], from + 1, policy) {
            Err(_) => {},
            Ok((next, end)) => {
                if from < end <= words.len() {
                    unsaid_stays(words, upper, end, next, seen.push(upper[from]));
                }
            },
        }
    }
}

/// What a policy does not say has its default: it permits, it is for all commands and for everyone, and it
/// has no expressions. One for INSERT has no USING, and one for SELECT or DELETE no WITH CHECK.
pub proof fn policies_have_defaults(words: Seq<Seq<char>>)
    ensures
        policy_read(words) matches Ok((policy, _)) ==> {
            let upper = upper_all(words);
            &&& unsaid(upper, 0, "AS"@) ==> policy.permissive
            &&& unsaid(upper, 0, "FOR"@) ==> policy.command == "ALL"@
            &&& unsaid(upper, 0, "TO"@) ==> policy.roles == seq!["public"@]
            &&& unsaid(upper, 0, "USING"@) ==> policy.using is None
            &&& unsaid(upper, 0, "WITH"@) ==> policy.check is None
            &&& policy.command == "INSERT"@ ==> policy.using is None
            &&& policy.command == "SELECT"@ || policy.command == "DELETE"@ ==> policy.check is None
        },
{
    match policy_read(words) {
        Err(_) => {},
        Ok((policy, _)) => {
            let upper = upper_all(words);
            first_clause(upper, 4);
            let end = crate::policy::clause_from(upper, 4);
            let start = plain_policy(crate::text::without_ends(words[2], '"'));
            unsaid_stays(words, upper, end, start, Seq::empty());
        },
    }
}

proof fn first_clause(upper: Seq<Seq<char>>, from: int)
    requires
        0 <= from,
    ensures
        0 <= crate::policy::clause_from(upper, from),
    decreases upper.len() - from,
{
    if from < upper.len() && !crate::policy::clause_word(upper[from]) {
        first_clause(upper, from + 1);
    }
}

/// Row-level security is changed by authority alone.
pub proof fn security_needs_authority(database: DatabaseModel, sql: Seq<char>, caller: AuthModel)
    ensures
        policy_executed(database, sql, caller) matches Ok(Some(_)) ==> caller.privileged,
{
}

} // verus!
