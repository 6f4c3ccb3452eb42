# ffs

Share files fast in a local trusted network, without encryption.

A client pushes files to servers over UDP. Every datagram is one message: a prefix (`ff 53`, then
the version `00`), a tag, and the arguments of that tag. A server that accepts a session chooses an
identifier for it; the client then sends the file in chunks, in any order. When a server stops
hearing from a client it asks for the chunks that it is missing, until it has all of them and can
check the file's SHA-256 digest.

## Layout

- `src/` is the library, written in Verus. Everything in it is proved against the contracts that
  its functions state, but for the functions marked `external_body`: each of those makes one call
  into another crate or into `std`, and its doc comment says what is taken for granted about it.
  - `protocol` is the wire format: messages, datagrams, and that what is sent is what is read.
  - `network` is what clients and servers keep track of and decide. `server` and `client` are the
    two sides, `repetition` says which chunks are asked for again, `transfer` how a file becomes
    chunks and the chunks become the file again, `paths` under which path a file is sent.
  - `digest`, `ranges`, `bytes` and `text` are what these are built from.
  - `file_generator` walks a tree of directories, `tui` reacts to keys.
- `app/` is the program around it: sockets, files, tasks and the terminal. It performs what the
  library tells it to and reports what came of it; what it settles itself is when to stop: a
  client waits for its grace period, then for the transfers that are under way.
- `tests/` runs the library on examples.

The public proof functions, most of them in `protocol::laws`, `network::laws`, `network::transfer`
and `network::repetition`, state what holds of the library as a whole.
