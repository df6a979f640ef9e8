# renegadex_patcher

Patching logic for Renegade X installations, verified with Verus.

- `src/` is the verified library: reading `release.json` and
  `instructions.json`, choosing mirrors, deciding per file whether to keep,
  delete, restore or download it, splitting downloads into parts and tracking
  them, planning patch files, judging the installation's state from its
  configuration (read through rust-ini), a buffered writer whose contracts
  follow the bytes its sink accepts (with in-memory sinks: growing, bounded
  and seekable), and the progress counters. `src/laws.rs` states and proves
  the properties that span several operations.
- `app/` performs the file system and network work around those decisions:
  downloads, hashing of files on disk, applying patches, and running the
  whole patch in the background with pause, resume and cancel.
- `tests/` exercises the library on concrete values.
