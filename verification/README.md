# ferris_torrent

A BitTorrent client and an HTTP tracker. The library under `src/` holds their logic,
verified with Verus: the public functions state in their contracts what they return or
change, but for what depends on other threads (the tracker's shutdown flag), and the laws
that relate several functions are proved as public proof functions.

## Layout

- `src/p2p`: the messages of the peer wire protocol, their encoding and decoding, and the
  law that decoding undoes encoding.
- `src/bencoding`, `src/urlencoding`, `src/numbers.rs`: bencoded values, percent encoding and
  decimal numbers in text, with their round-trip laws.
- `src/config`: the configuration files of the client and of the tracker.
- `src/torrent`: the client's side: the data of a .torrent file, the state of a download, the
  tracker's answer as the client reads it, the announce request, the conversation with one
  peer (as a function from state and received message to the next action), and how the work
  is shared between threads.
- `src/tracker`: the tracker's side: announces, the torrents and their peers, the answer to an
  announce, the statistics, the routing of requests, the laws on what the client reads of
  the tracker's answer, and the law on what the tracker reads of the client's announce.
- `app/`: the programs around the library: files, sockets, TLS, threads, logging and JSON.
  `ferris_torrent tracker` runs the tracker; any other arguments are .torrent files or
  directories of them for the client to download.
- `tests/`: tests of the library on concrete values.
