# kurabase

A relational database layer whose state lives on a chain. SQL batches run against a state that is
rebuilt from the events of one contract; what they change is planned as a list of cell writes and
committed atomically on top of the revision that was read.

## Layout

- `src/` is the library, verified with Verus.
  - The relational core: `catalog`, `statement`, `alter`, `dml`, `select`, `eval`, `scalar`, `rules`,
    `validate`, `referential`, `policy`, `functions`, `calls`, `deferred`, `depend`, `execute`.
  - The chain: `chain`, `projection` plans writes and replays them, `encode` and `decode` are the
    canonical text of a state.
  - The gateway: `auth`, `gateway`, `postgrest`, `embed`, `replies`, `api`.
  - Relational reads: `normalize` admits a query, `relational` carries tables and results to and from
    the query engine, `cache` keeps materialized views.
  - What holds of all of it: `upkeep` (every batch, migration and call leaves a well kept state),
    `restore` (what was committed is rebuilt from the chain), `replay`, `plans`, `codec`,
    `authorization`, `visibility`, `identities`, `definitions`, `guarantees`, `ordering`, `quoting`,
    `pieces`, and the laws beside the functions in `rules`, `validate`, `execute`, `select`,
    `relational`, `ast`, `scalar` and `auth`.
  - `outside` holds every call into another crate with what is believed of it, and `guards` says on
    which texts and trees the SQL parser and its printer can be called.
- `tests/` run the library with the real parser, hashes and encodings.
- `app/` is the gateway process: HTTP, the chain connection and the query engine.

## Conventions

Every type has a mathematical model through `DeepView`, and a function's contract says that its result
stands for a specification function of the models of its arguments. Syntax trees are JSON values, in the
form in which the SQL parser serializes them.
