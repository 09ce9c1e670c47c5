# rsscript_compiler

Static checks of the RSScript compiler front end, written in Verus. Verus
proves the functions in `src/` against their contracts, except a few small
trusted wrappers (marked `#[verifier::external_body]`) around std's
`String::push` and `{:?}`, `sha2` and `toml`: their contracts are believed,
and their doc comments say what each claims.

The library works on already parsed programs (`ast`). Its parts:

- `analyzer`: the analysis entry points (single source, merged sources, with
  or without interfaces), built from the unsupported-syntax check (`syntax`),
  the derive field requirements (`derives`), backend name conflicts
  (`declarations`) and type alias cycles (`aliases`).
- `aliases`, `types`, `typestr`, `generics`, `calls`, `items`, `task_group`,
  `variants`: type alias expansion, type rendering, type-name comparisons,
  generic substitution, call labels, protocol queries, task-group walks and
  the field form of variant constructions.
- `patterns`, `flow`, `call_args`: whether `match` patterns fit the
  scrutinee's type, the ownership state where branches and loops join, and
  how call arguments bind to the resolved signature's parameters.
- `names`: backend symbol names and `#lower_name` pins.
- `package`, `execution`, `exports`, `imports`, `native`, `native_scan`,
  `cargo_manifest`, `digest`: package-level facts — runnable source
  selection, feature risk markers, diagnostic deduplication, resource and
  task-group facts, package exports and summary, external imports
  (`imports`), native wrapper paths, native source
  scans and content digests.

`app/` holds the file-system edges (resolving paths on disk, reading native
sources), which call into the verified library.
