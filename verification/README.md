# apple_matting_cli

A command-line tool that removes image backgrounds with macOS Vision, split
into a verified library and a thin program around it.

- `src/` (verified with Verus)
  - `cli.rs`: the command-line grammar (`parse_args`), background colors,
    upload extensions, exit statuses, and the laws of the grammar.
  - `batch.rs`: batch planning (which file each image's result goes to,
    collision and nesting checks), path ordering, result summaries.
  - `matting.rs`: the default `_nobg.png` output path, output-path
    resolution and the meaning of the native bridge's status codes.
  - `server.rs`: what the HTTP endpoint reads from a multipart upload and
    which status answers each failure.
  - `paths.rs`, `order.rs`, `text.rs`: file names, listing order and
    character-level helpers.
- `app/`: `main`, file-system access, worker threads, the native call and
  the HTTP server.
- `tests/`: the command-line tests and tests of each module.
