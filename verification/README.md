# ormada

The schema and migration core of Ormada, a Django-style ORM for Rust, written
in Verus. The functions of `src/` are proved against their contracts; calls
into outside crates and into `std` stand behind small trusted wrappers whose
contracts say what those crates document, and the methods over the atomic
write flag of a routing context, shared between threads, carry no contract of
their own.

## Layout

- `src/schema.rs`, `src/diff.rs` — the schema model, the diff between two
  schema states and the safe order of its operations.
- `src/sqlgen.rs` — SQL for each schema operation, and the ordering of table
  creation by foreign-key dependencies.
- `src/parser.rs`, `src/source.rs` — reading `#[ormada_model]` structs from
  Rust source (through `syn`) into table schemas.
- `src/attr_args.rs`, `src/model_def.rs`, `src/django_model.rs`,
  `src/projection.rs`, `src/migration.rs` — the argument grammar of the model,
  schema and projection attributes, and the checks a model definition passes
  before code is generated for it.
- `src/codegen_plan.rs` — what the generated code of a model does, as plain
  values: the validations and assignments made when a record is created, the
  relation slots, the column constants, the default ordering and the
  many-to-many accessors.
- `src/tracker.rs`, `src/pending.rs`, `src/config.rs` — migration files,
  dependencies and checksums, pending migrations, reports, project settings.
- `src/error.rs`, `src/query.rs`, `src/router.rs`, `src/batching.rs`,
  `src/format.rs`, … — the runtime vocabulary: errors, query states and
  plans, read routing, batching, SQL formatting.
- `src/text.rs` — character-level text functions and their specifications.
- `app/` — the `ormada` command line: file and database I/O around the library.
- `tests/` — executable tests of the library.

Laws that relate several functions are public proof functions named `law_*`.
