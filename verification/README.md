# iznik-kit

The verified core of the iznik tooling: the generators, decoders, readers and
judges that the test kit and the task runner are built from, each with a
contract that Verus proves.

- `src/` is the library. Every function in it is verified; the few calls into
  `sha2`, `toml`, `serde_json` and std that the logic needs stand behind small
  trusted wrappers whose contracts say what those crates promise.
- `tests/` runs the library on concrete values.
- `app/` is the `xtask` command line around it: it walks the tree, reads and
  writes files, parses Rust with `syn`, runs cargo, git and nextest, and hands
  the library plain values. Its `soak` and `regression` commands only say
  that they need the iznik harness, server and protocol crates, which this
  build does not include; the soak's decisions, steps, commands and report
  are in `src/soak/` all the same.

Modules: `golden` (hex dumps of wire bytes), `generate` (seeded registry
operations), `metrics`, `pty` (waiting on a pseudoterminal), `vt`
(terminal snapshots), `gate`, `doctor`, `header`, `distribution`, `claims`,
`policy`, `soak`, and the shared `text` and `paths`.
