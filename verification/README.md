# anawt

A torrent client built on libtorrent and tokio, whose bookkeeping is
verified with Verus.

- `src/` is the verified library: the info hash of a torrent
  (`info_hash.rs`), a torrent's entry and the table of entries, no torrent
  twice (`torrent_entry.rs`), the client's state and its transitions:
  registering torrents, attaching the handles that the session reports,
  and the protocol of save requests, which are served one at a time in
  the order they arrive, each awaiting one resume-data alert per torrent
  it asked; the alert that finishes a request starts the next ones
  (`client.rs`, law `lemma_requests_answered_in_order`), the options
  (`options.rs`), the decision of the event loop (`event_loop.rs`) and the
  durations it compares (`time.rs`). The laws of the client state stand
  as proof functions in `client.rs`.
- `app/` drives libtorrent, the tokio channels and the disk around that
  core: the client handle, the event loop, the status with its progress
  (a float) and the error types.
- `tests/` runs the library on concrete values.
