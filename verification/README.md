# creator

A build tool for Spicetify v3 modules: it scaffolds modules, transpiles their scripts and
stylesheets (rewriting import specifiers and classmap expressions), watches them, fetches
classmaps and packages modules for release.

## Layout

- `src/` is the library, verified with Verus. It holds the classmap (a sorted tree of class
  names with its lookups), the stylesheet and script rewriting rules, the source graph of a
  module, the module graph of a workspace (build levels, dependency closure, topological
  order, pending watch changes), the command-line dispatch, the scaffold plans and the
  release manifest. Calls into outside crates (lightningcss, blake3, semver, base64,
  serde_json, regex-syntax, `std::path`) stand behind small trusted wrappers whose contracts
  name what the crates compute.
- `app/` is the command-line program around the library: argument parsing with clap, file
  and network I/O, the oxc parse/transform/print pipeline, SCSS with grass, the Tailwind
  CLI, file watching, template rendering and zip archives.
- `tests/` exercises the library from outside.
