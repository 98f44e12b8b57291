# pacquet_package_manager

The decisions of a pnpm-compatible package manager, written in Rust and proved
in Verus: what a dependency specifier stands for, what a lockfile keeps and
whether it is current, what is hoisted, linked, imported, pruned or skipped, and
what the user is told.

## Layout

- `src/` is the library. Every function states its result over mathematical
  models: texts are sequences of characters, tables are maps, and lockfiles and
  manifests are records of those.
- `tests/` runs the library on concrete values.
- `app/` is what surrounds the library: files, processes, the network, threads
  and the terminal. It performs what the library decided and hands back what
  came of it. The registry, the store and the lockfile format are a trait there,
  `services::Services`.

## How the parts meet

A function that has to know what is on disk does not look itself. It comes in
two parts: one lists the paths that matter (`readiness_probes`, `layout_probes`,
`bin_probes`), and one decides, given those of them that are there. That nothing
but these paths counts is proved (`law_probes_decide_readiness` and its
neighbours).

Work that goes back and forth between decisions and the world is a step
function: `link_start` and `link_next` for a file that is linked by whatever
means work, `install_start` and `find_install_way` for an installation,
`resolve_package_spec` for a package that is added, `MaterializeWalk` and
`BinWalk` for directories that are walked.

A path is a text, written as the system at hand writes it. What takes a path
apart or puts one together also takes `on_windows`: `paths` knows drives, shares
and both separators, and leaves the rest to `slashed`, which knows `/` alone.

## Laws

What holds of several functions together is proved in public functions whose
names begin with `law_`. Among them:

- a lockfile that was just written is current, fits its manifest and is
  installed as it is;
- after an installation there is nothing left to do;
- what an installation leaves about itself reads back, on Windows as elsewhere;
- a direct dependency in the lockfile leads to the directory of the virtual store
  that its package is put into;
- packages that are pruned are those that nothing refers to, and no others, and
  pruning again changes nothing;
- a shell reads a quoted path as the path;
- the order of fields and items does not count in a checksum;
- a package that is not optional is never skipped.

## What is taken on trust

Calls into `node_semver`, `httpdate`, `serde_json`, `sha2`, `base64` and
`dashmap` stand behind small functions whose contracts are believed. Each says
above it which function it calls and what is claimed of that function.
