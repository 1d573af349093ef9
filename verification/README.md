# cargo_raze

A library that plans Bazel BUILD files for a Cargo workspace whose dependencies are
vendored under `vendor/`, and a `cargo raze` front end around it.

- `src/` is the library, verified with Verus:
  - `planning` plans one crate context per vendored registry crate (dependencies split by
    kind and pinned by Cargo's resolve, targets relative to the vendored directory, the build
    script kept apart) and reports why a plan is impossible; `plan_laws` proves what holds of
    every plan.
  - `resolver` describes the workspace's crates straight from Cargo's resolve.
  - `files` prints `.bzl` expressions (including maps and sets, in sorted order) and the text of the generated BUILD and `.bzl` files;
    `bazel` and `context` hold the data they are written from.
  - `text` and `sort` are the string and ordering helpers everything else is proved with;
    `platform` and `util` read `rustc --print=cfg` output and decide which dependencies apply
    through `cargo-platform`.
  - `settings` and `rendering` hold the `[raze]` settings, rendered outputs and where they go;
    `workspace` parses the workspace's `Cargo.toml` and `Cargo.lock` through `toml`.
- `tests/` exercises the library on concrete workspaces.
- `app/` is the command-line program: argument handling, logging, talking to Cargo and
  `rustc`, and reading and writing files.

The template-based renderer (Tera templates for crate and vendor BUILD files) is not included:
its templates and the template engine are not available. Of it, only the layout of the output
paths is kept, in `rendering::planned_build_file_paths`; the BUILD and `.bzl` text that is
written comes from `files`.
