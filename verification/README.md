# geode_bindings

Generates Geode binding files (broma) for old releases of Geometry Dash
from an Android symbol listing (as `llvm-nm` prints it) and a vtable dump
made with Ghidra.

- `src/` is the library, verified with Verus: symbol filtering
  (`parsing_logic`), signature clean-up (`re`), grouping, ordering and
  declaration guessing for class functions (`logic`, `layout`, `order`),
  the broma writer (`writer`), and the assembly of a release's classes
  (`old_versions`). `laws` holds properties proved across these operations.
  Regular expressions are run by `lazy_regex` and JSON is read by
  `serde_json`, behind the trusted functions of `matching` and
  `parsing_logic`.
- `app/` is the command line: argument parsing with `clap`, reading the
  input files and saving `out/Geometrydash.bro`.
