# bloxtree

A content-addressable store with versioned paths. Blobs are files named by
their BLAKE3 hash; an index database maps each path to its versions. A command
line program works on a store, and a FUSE driver mounts it so that each path
shows its latest version.

## How it is built

The library in `src/` does no input or output. Each operation is a
conversation: it asks for one thing at a time (read a chunk, run a query, rename
a file), is handed the reply, and is done in the end. What it asks for and what
it makes of every reply is stated in its contract and proved with Verus.

- `tree`, `add`, `get`, `remove`, `list`, `store`, `reader`: the store's
  operations.
- `index`: queries, their SQL, and the decoding of rows. `path`, `hash`, `uuid`,
  `text`, `utf8`, `pathset`: what they are made of.
- `cli`: the commands, what they print and how they end.
- `mounted`, `node`: the filesystem.
- `world`, `rows`, `insertion`: the database and the object directory as
  mathematical values.
- `store_laws`, `removal_laws`, `laws`, `cli_laws`, `mounted::laws`: what whole
  conversations achieve where nothing goes wrong outside, such as that what was
  added is what is got. `mounted::backing`, `mounted::versions`: that the
  filesystem's files are the latest contents of the store, and what its operations
  do to the versions. `mounted::handles`: that a fresh handle is none in use.
  `endings`, `mounted::endings`: that conversations come to an end. `moments`: what
  holds at every moment on the way.

`app/` is the program around the library: it holds the database connection, the
directories and the FUSE session, and carries out what is asked for.
