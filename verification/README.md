# journal_storage

A byte-addressed storage and journaling library, verified with Verus.

`src/` is the verified library:

- `memory_binary_storage`, `transactional_storage`: growable in-memory byte
  storage with typed little-endian access and a transaction boundary.
- `journal`, `event_journal`, `journal_reader`, `journal_writer`,
  `memory_journal`, `ptr_index`: length-prefixed, checksummed record journals.
- `file_page`, `file_synced_buffer`, `file_binary_storage`: fixed-size pages,
  the page cache of a file, and the rules of a file-backed storage.
- `bp_tree`, `bplus_tree`: the node blocks of a B+ tree index and the search
  over them.
- `le_bytes`: the calls into `byteorder` that every component encodes and
  decodes integers with.

`app/` holds what performs file I/O or handles floating-point values: the
file-backed storage that carries out the library's decisions on a real file,
the reading side of the page cache, and the common storage interface.
