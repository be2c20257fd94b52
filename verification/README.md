# rule_api

A verified library for a rule system: rule manifests kept in an index,
markdown files imported as rules, render-target configurations loaded and
resolved into outlines, the rules each target collects, the catalog of a rule
store, and the decisions of the sync commands. The functions of `src/` are
checked by Verus against their `requires` / `ensures` contracts, with the
exception of eight small wrappers marked `#[verifier::external_body]`, whose
contracts are trusted rather than proved because their bodies call code that
Verus does not read:

- `manifest.rs`: `new_uuid` (`uuid::Uuid::new_v4`), `now_rfc3339`
  (`chrono::Utc::now` and `to_rfc3339`), `uuid_to_string` (the hyphenated form
  of a `uuid::Uuid`), `parse_uuid` (`uuid::Uuid::parse_str`);
- `text.rs`: `string_from_chars` (`String: FromIterator<char>`),
  `char_to_lowercase`
  (`char::to_lowercase`), `str_to_lowercase` (`str::to_lowercase`),
  `char_is_alphanumeric` (`char::is_alphanumeric`).

Each of them states in its doc comment what its contract claims of the call.

## Layout

- `src/manifest.rs`: rule manifests as field maps, with typed accessors and setters.
- `src/rule_index.rs`: the index of entries and slugs: resolution of ids, prefixes
  and slugs, create / get / delete / list, body and slug updates, records of
  generated target outputs, and the laws relating them.
- `src/import.rs`: markdown documents split into rule blocks.
- `src/targets_loader.rs`, `src/targets_load.rs`: target configurations read from a
  snapshot of the files they name, with imports, schemas and file trees.
- `src/targets_model.rs`, `src/targets_query.rs`, `src/target_rules.rs`: targets,
  their outlines and filters, target selection, and the rules each node collects.
- `src/store_index.rs`: catalog entries, grouping, summaries and the catalog text.
- `src/sync_rules.rs`, `src/sync_targets.rs`: reverse sync of generated files and the
  decisions of a target sync.
- `src/commands.rs`, `src/cli.rs`: command arguments and the checks made on them.
- `src/text.rs`, `src/paths.rs`: text and `/`-separated path operations.
- `app/`: a thin command line front end. It parses the arguments, checks them
  with the library, loads target configurations from disk and selects targets,
  runs `import-file --dry-run` and `missing-rule`, and prints the results. The
  commands whose work lies in a persistent rule store (`init`, `create`, `get`,
  `update`, `list`, `sync-rules`, ...) answer that the store is not available.
  `app/target_records.rs` makes paths canonical (a file-system step) before
  generated-target records are keyed by them.
- `tests/`: tests of the library on concrete values.
