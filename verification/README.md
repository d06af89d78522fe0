# powerfs_fuse

The client side of the PowerFS file system, as a verified library with a thin
mount around it.

* `src/` decides what happens: caches, caps and leases, reads and writes, flushes,
  names, and what the kernel and the servers are told. Every function states its
  result and the new state in its contract, over the views `FsView`, `MetaView`
  and `ChunksView`. What spans several functions stands as `law_...` proof
  functions beside them, in `meta_laws`, `chunk_laws` and `fs::laws`.
* `app/` talks to the kernel, the clocks and the servers. It performs the steps
  that the library hands out and hands the answers back.
* `tests/` runs the library on concrete values.

A request is a chain of steps. `read_begin`, for one, says either what the answer
is or what has to be fetched first; the answers go to `flat_chunk_read` and its
siblings, and `copy_out` gives the data. Times, owner ids and server answers are
parameters, so each step is a function of the state and its arguments.
