# unionfs

An in-memory union filesystem served over FUSE. At start-up the directory to
be mounted is scanned into a read-only layer (inode 1 is its root). Each
terminal session (the `tty_nr` of the requesting process) gets, on its first
lookup, a writable layer of its own: a writable root that shadows the
read-only root, with a writable twin of every read-only directory. Writes to
read-only files copy them up into the session's layer; removals leave the
name in the writable directory naming inode 0, which hides the read-only
entry of the same name.

Layout:

- `src/` — the verified library (Verus). `state.rs` holds the filesystem and
  its view; each request has a module (`lookup`, `readdir`, `write`,
  `create`, `remove`, `rename`, `scan`) whose functions are specified by a
  function over the view, `None` where the request cannot be served.
  `checks.rs` tests each precondition exactly before a request is served;
  `walk.rs` proves that the test for building a session's layer is exact.
  `preservation.rs` proves what every request keeps, and `laws.rs` how the
  requests answer one another.
- `app/` — the FUSE server: mounts with `fuser`, reads sessions from
  `/proc` with `procfs`, reads the directory tree into scanned entries (which
  the library numbers and adds), and converts between the library's values
  and the kernel's.
- `tests/` — tests of the library on concrete trees.
