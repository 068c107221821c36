# gg2_custom

The logic of a Gang Garrison 2 game client, verified with Verus.

`src/` is the verified library:

- `path_spec`, `text`, `components`, `spath`, `order`, `ordering`,
  `path_hash`, `path_laws`, `extension`: `/`-separated string paths
  (`SPath`, `SPathBuf`) modelled as sequences of components, with their
  iteration, pushing, popping, prefixes and suffixes, order, hashing and
  file extensions.
- `resource`, `asset`, `asset_laws`: namespaced resource identifiers and
  the layout of asset packs; which textures an atlas selects; the proof
  that the file a scan finds is the file its identifier's asset path names.
- `number`, `texture`, `atlas`, `sprite`: reading frame numbers, decoding
  and packing texture images, laying textures out on an atlas, grouping
  animation frames into sprites, and choosing the texture a sprite shows.
- `session`, `queue`, `players`, `input`, `hud`: the client's handshake with
  a server as a state machine, the queue of received bytes, the list of
  players, button bindings, and the match timer.

`app/` is the program around it: command line, configuration file, reading
asset packs from disk, building atlas images, and the sockets of the
connection.

`tests/` exercise the library on concrete values.
