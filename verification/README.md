# tcge

A game engine for discrete voxels, with its logic verified by Verus.

- `src/` is the verified library: block types and their registry, the block
  universe, chunks and chunk storages (with read-after-write laws), the faces a
  chunk's mesh shows, the two routers (lenses moving through a tree of nodes),
  the backbone (a location in a node tree, events handed along it), path
  parsing, the client's controls, a UTF-8 reader, a small profiler, and trusted access to
  `rustc_hash::FxHashMap` and `toml` tables.
- `app/` is the client program: command-line options (`clap`), logging
  (`simplelog`), files, the window (`glfw`, `gl`), the game loop, noise terrain
  (`fuss`), rays and vertex geometry in floating point, and the loops that fire
  events until the backbone rests.
- `tests/` exercise the library on concrete values.
