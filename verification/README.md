# lifeguard

A library that finds out which modules of a Python program can be imported lazily. A module can be if
nothing that runs while it is imported has an effect that others could observe: calls of unknown or
unsafe functions, exceptions, assignments to imported modules and the like.

- `src/` is the library. It is written in Verus: what each function does is stated in its contract and
  proved.
- `tests/` runs the library on concrete modules.
- `app/` holds the commands around the library: argument handling, files, JSON and the format of cache
  files.

## How an analysis runs

1. `module_parser` reads source text into an `ast::ParsedModule`. `definitions_builder` finds what their scopes define, and
   `sys_info` which branches of `if` statements are known not to run. `import_collector` builds the
   graph of their imports, `exports_builder` collects what they export.
2. `module_info`, `class_builder`, `bindings` and `bindings_table` find out what the names in a module
   stand for. `source_analyzer` collects the effects of its scopes, `stub_analyzer` those that a stub
   declares.
3. `implicit_imports` finds the modules that are used without being imported.
4. `project_info` brings the modules together. `recursion`, `call_check` and `scope_check` find a
   verdict for every function and the errors of every module; `project` runs these steps.
   `verdict_order` shows that the verdicts do not depend on the order in which functions are looked at.
5. `output` makes the result: which modules pass, and what has to be imported eagerly before a passing
   module can be lazy (`classify`, `re_export_map`, `reach`, `lazy_eligible`). `runner` ties the steps
   together.

Libraries can also be analyzed one by one. What is found is kept in a `cache::LibraryCache`; caches are
merged, and calls between libraries are resolved, in `cache_merge`, `cache`, `verdicts` and `spread`.

## What is taken on trust

Functions marked `#[verifier::external_body]` call outside code: the hash maps of ahash (`name_map`), the
sets of starlark_map (`name_set`), the graphs of petgraph (`graph`), the JSON strings of serde_json
(`effects`), the Python parser of ruff (`module_parser`, with the conversion of its tree in `ruff_tree`) and
the escapes of the standard library (`format`, `call_text`). Each says in its comment what is believed
of the call.
