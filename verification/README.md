# onion_poc

Share files over tor onion services. A file is cut into chunks, each chunk is
sealed with XChaCha20-Poly1305 under a per-file key (nonce derived from the
key and the chunk index, associated data binding the file id and the index),
and served over HTTP behind an ephemeral v3 onion service. A share link
`opoc://<service>.onion/s/<file_id>#<key>` carries the host, the file and the
key. Nodes find each other's files by LAN multicast and by gossip with
bootstrap peers over tor, and merge them into a lobby keyed by content hash
(BLAKE3).

## Layout

- `src/` is the library, verified with Verus: keys and chunk encryption
  (`crypto`, `base64url`), identifiers (`ids`), share links (`link`), shares
  and chunking (`share`), the server's state and routes (`server`), the
  downloader's checks and decisions (`download`), discovery and the lobby
  (`discovery`, `tracker_proto`), the optional tracker (`tracker`), the tor
  control protocol (`tor`), settings (`config`), what the interface shows and
  the state shared between the window and the background worker (`ui`,
  `gui`), and text helpers (`text`).
- `app/` is the program around it: the command line, settings files, the tor
  process and control port, the HTTP server and clients, UDP multicast,
  and the console that drives the background worker.
- `tests/` holds the tests.
