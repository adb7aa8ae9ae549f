# perry_freshness

Decides whether the auto-optimized runtime and stdlib archives of the Perry
compiler can be reused, and what a rebuild of them is asked for. Written in
Verus: every function of `src/` but the three wrappers named below has a contract
that is proved.

- `src/` holds the decisions. It does no I/O; walks over files are step machines
  that name the next path and take what was found there.
- `app/` reads files and environment variables and drives those machines.
- `tests/` runs the library on concrete values.

Functions named `law_*` state what holds of the library as a whole: that a stamp
determines the fingerprint in it, that a search for crates ends and misses none,
that a change in any file of a crate to which manifests lead changes the
fingerprint, and so on.

Three wrappers are taken on trust. `parse_document` and `open_value`
(`src/toml_value.rs`) claim that `toml` parses a document into a value that
depends on its text alone, and that its variants hold what the value holds.
`sha256_digest` (`src/fingerprint.rs`) claims that `sha2` computes a digest that
depends on its input alone.
