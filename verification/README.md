# patch_northgard

Patches the compiled logic of Northgard (`hlboot.dat`, a HashLink bytecode program) for a
randomizer. The patched game

- unlocks a node of the Conquest map only where a marker file for the node exists, on top of its
  own rules (where a second file turns on the non-linear mode, the marker alone decides),
- shows every node of the open map its present state on every frame,
- hands resources to the human player where marker files stand for them: once in each battle for
  those that are kept, once for each marker for those that are used up,
- records every won battle, reveals the true state of the next column, and never leaves the map
  locked after a battle.

Everything in the program is found by name, and every patch tests the code that it is about to
change: a release of the game that it does not fit is refused, not mangled, and a copy of an older
release is not put in its place.

## Layout

- `src/` is the library, written in Verus. Each patch is an executable function whose contract says
  which program comes out, or which error. Bytes are gone through before they are read, and programs
  before they are written, so that neither can break the tool (`format.rs`, `links.rs`,
  `limits.rs`). On top of that stand laws: what the patches leave alone (`laws.rs`,
  `apply_laws.rs`, `write_laws.rs`), what becomes of the files (`survival.rs`, `file_laws.rs`), and
  what the new instructions do when they run, in any game (`machine.rs`, the `*_behaviour.rs`
  modules, `installed.rs`). `lib.rs` lists the modules.
- `tests/` runs the library: on a small program with the parts of the game that the patches touch,
  and on the bytes of that program.
- `app/` is the command line: arguments, files, the registry, and messages.

`hlbc` reads and writes the bytecode. What is taken on trust of it is said at the two functions of
`src/image.rs` that call it; what is taken on trust of the standard library, at `list_bindings` in
`src/limits.rs` and at `String::push` in `src/text.rs`.
