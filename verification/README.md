# cgen

cgen generates C/C++ headers from source files: it keeps the declarations that are
not `static`, cuts function definitions before their bodies, ends each declaration
with a semicolon, and wraps the result in a watermark line naming the cgen version
(unless `outputs.all.watermark` is off), `#pragma once` and an include guard named
after a hash of the content.

- `src/` is the verified library: declaration selection (`frontends/libclang.rs`,
  `source.rs`) over the cursors of a translation unit (`ast.rs`), header assembly
  (`backends/c_header.rs`, `text.rs`), configuration (`cfg.rs`, `cli.rs`) and the
  per-file pipeline (`lib.rs`).
- `app/` is the program: command line, configuration files, directory walking,
  parsing with libclang, writing files and watching for changes.
