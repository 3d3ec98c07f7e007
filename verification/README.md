# veltro

A code generator for Dart: it finds classes annotated `@Veltro(...)` under `lib/`,
and writes for each source file a `.g.dart` part with the mixin, `copyWith`, and
JSON conversion code the annotations ask for. A second generator, for `@Data()`
classes, is part of the library but is not registered by default, so a build
produces nothing for them unless it is added to the plugin registry.

The library under `src/` is verified with Verus:

- `pipeline/` — parsing (tree-sitter, converted to a plain `SyntaxNode` tree),
  annotation and field analysis, type resolution, the build plan, its writes and
  its result;
- `plugin/` — the code generators of `@Veltro` and `@Data`, and what the
  generated text can and cannot hold under each option;
- `registry.rs`, `config.rs`, `yaml.rs`, `writer.rs`, `watcher.rs`, `cli.rs` —
  the type registry, `build.yaml`, the content-hash cache, watch-mode decisions and
  the command's reports;
- `text.rs`, `path.rs` — string and path operations with their specifications.

`app/` holds the command itself: argument parsing, file system access, the file
watcher and the terminal output.
