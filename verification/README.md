# yarlint configuration

How YARlint decides which cops run and how they behave, verified with Verus.

The registry declares every cop and its parameters; a `yarlint.toml` file and
the command line override them. The pipeline reads the file, lays it over the
registry defaults, applies the command line, and validates every value, so
that the resolved configuration is complete and every parameter read is
infallible. Problems are collected as diagnostics; only malformed TOML stops
the run.

## Layout

- `src/config/document.rs`: the parsed TOML document as plain data, and the
  one call into `toml_edit` that produces it.
- `src/config/raw.rs`: reading the document into what the file says.
- `src/config/merge.rs`: laying the file and the command line over the
  registry defaults, with the precedence laws.
- `src/config/validate.rs`: type and range checks, defaults for what is
  missing, and the laws on resolved values.
- `src/config/resolved.rs`, `params.rs`, `globals.rs`: the resolved
  configuration, its rendering for `config show`, and read access.
- `src/config/spec.rs`: parameter declarations and the registry invariants.
- `src/config/diagnostics.rs`: diagnostics, line and column, suggestions.
- `src/config.rs`: the whole pipeline (`resolve`, `load`).
- `src/keyed.rs`: a map ordered by the bytes of its text keys.
- `app/`: reading files from disk, discovery of the configuration file, the
  verbose flag, and `Display` for errors and the resolved configuration.

## Trusted items

Verus takes on trust the contracts of the functions marked
`#[verifier::external_body]` and the declarations of outside types. Each has
a doc comment saying what it claims of the code it calls.
