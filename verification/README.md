# fjall_js

One [fjall](https://crates.io/crates/fjall) storage engine per directory, shared by every handle of
a process, with the decisions verified by Verus.

- `src/` is the verified library: the registry of engines (`engine`, `table`), the key under which
  a directory is shared (`path`), the settings (`config`, `double`, `persist`), the operations that
  a caller starts (`surface`) and their messages (`error`). `model` is the mathematical registry
  that the contracts speak of, `soundness` shows that every step keeps its invariant, and `laws`,
  `openers` and `keys` state what holds of the whole. `storage` and `shared` declare what is taken on trust from fjall
  and from the standard library.
- `app/` is the Node.js addon: napi classes, threads, the file system and fjall's I/O.
- `tests/` runs the library on real databases in temporary directories.

The library performs no I/O. An opener reports an event and gets an action; a task hands out the
partition, the key and the value that go to fjall. What a partition holds is fjall's business and
is not modelled.

Paths are lists of components as Unix has them.
