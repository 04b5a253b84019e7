# dua

The verified core of a disk usage analyzer. Every function in `src/` carries a Verus contract
and is proved against it; `app/` is the thin command-line program around the library, and
`tests/` exercises the library on concrete values. `app/` drives the search for cleanup
candidates (`--cleanup-candidates`) by answering the library's requests from the filesystem.

## Layout

- `src/attributes.rs`, `src/darwin.rs`: decoding of Darwin's packed attribute records and bulk
  directory enumeration, from record framing to the metadata an entry stands for.
- `src/winfs.rs`: Windows directory enumeration records, file times, and verbatim paths from a
  path's components and the current directory.
- `src/walk.rs`, `src/inodefilter.rs`: how a filesystem walk starts its roots, accounts for its
  jobs and counts hard links once.
- `src/aggregate.rs`, `src/format.rs`, `src/numfmt.rs`: size aggregation over input roots and the
  way sizes are printed.
- `src/diff.rs`, `src/changes.rs`: comparison of two snapshots, step by step and as a whole
  walk over both, the change tree and the largest-change summary.
- `src/keys.rs`, `src/config.rs`, `src/dispatch.rs`, `src/focus.rs`: keybindings, configuration
  defaults and what each key press or terminal event does.
- `src/browse.rs`, `src/listing.rs`, `src/navigation.rs`, `src/text.rs`: sort modes, listing
  order (including the newest or oldest time below a directory), navigation and the text the
  browser shows.
- `src/clean.rs`, `src/discovery.rs`, `src/gitindex.rs`, `src/heuristics.rs`, `src/hub.rs`:
  cleanup discovery, run as a machine that asks the filesystem and Git for what only they can
  tell, the check of a Git index's entries for tracked paths (the program in `app/` reads no Git
  index and so refuses candidates inside repositories), user heuristics and the grouping of
  cleanup candidates.
- `src/patterns.rs`: ignore patterns in `.gitignore` syntax, and what they and ignored
  directories leave out of walks and discovery.
- `src/deletion.rs`, `src/targets.rs`, `src/removal.rs`, `src/recompute.rs`: what a deletion
  starts from, the order of removals, how the tree and navigation follow removals, and how
  directory sizes and entry counts are recomputed from their children.
- `src/sorting.rs`: a stable merge sort of positions by a caller's order.
- `src/stdspecs.rs`: the contract assumed of one standard-library function.

Outside crates are reached from `src/` through a few trusted wrappers, each documented with
what its contract claims: `byte-unit` for unit selection, `unicode-segmentation` for grapheme
clusters, `gix-glob` for glob matching and `gix-ignore` for ignore patterns.
