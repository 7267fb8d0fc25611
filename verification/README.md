# rust_app_sample

A plugin host with localised messages, and its release tooling.

- `src/` is the library, verified with Verus:
  - `text` — character-level string operations (trim, split, search, replace), each stated over `Seq<char>`;
  - `lang_file` — the `.lang` format (`key = value` lines, `#` comments, byte-order marks) and its lookup;
  - `table` — string-keyed tables without repeated keys, and the choice of an entry by exact key, key prefix and fallbacks;
  - `locale` — language codes and the choice of a language file for a requested code;
  - `i18n` — the translator and what it asks of the core library;
  - `plugin` — plugin message files, the core library's answer for a plugin message, plugin names;
  - `build_targets` — the release targets, their selection from the command line, and the build commands;
  - `debug` — the debug flag.
- `app/` is the program around it: file and directory reading, dynamic library loading (`libloading`),
  Lua scripts (`mlua`, `walkdir`), the C interface of the core library and of the sample plugin,
  and the release build (`main xtask <filters>`).
- `tests/` runs the library on concrete inputs.
