# blobnet

A low-latency, content-addressed file server with a non-volatile cache, verified with Verus.

Blobs are named by the SHA-256 of their bytes. A provider keeps them: in memory, in a local
directory, in an S3 bucket, on a remote server, or in a pair of providers of which the second is a
fallback. A cache in front of a provider keeps pages of blobs in memory and on disk.

- `src/` is the library: what is computed and decided, with contracts that are proved.
  - `page_cache`: the LRU cache of pages in memory.
  - `chunks`: reading a range of a blob page by page.
  - `cached`: which page comes from memory, from a fetch under way, from disk, or from the
    provider.
  - `history`: what holds of a cache over time, whatever requests, fetches and disk writes run side
    by side.
  - `coherence`: that a read through the cache is a read of the stored blob, whatever is evicted
    from memory and whichever files vanish from the cache directory.
  - `pending`: the requests under way.
  - `memory`, `provider`, `fallback`: the providers.
  - `digest`, `size`, `range`, `text`, `buffer`: hashes, sizes, ranges, numbers and byte buffers.
  - `cleaner`, `stats`, `config`: expiring the disk cache, reporting, and the command line.
- `app/` is the server around it: sockets, files, tasks and locks.
- `tests/` runs the library.

The functions that no proof stands behind are marked `external_body`. Each calls one function of an
outside crate, and its comment says what is taken for granted of it.
