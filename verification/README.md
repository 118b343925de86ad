# nails_core

The core library of NAILS, verified with Verus: path handling, the
filesystem interface and its in-memory model, the parsers for what the
kernel and tools report, logging policy, and the decisions of deactivation.

## Layout

- `src/path.rs` – path components as `std::path::Path` sees them, with
  their canonical text, parents, file names, joins and ordering.
- `src/filesystem/` – the `Filesystem` trait; `mock.rs`, an in-memory
  filesystem whose every operation is stated over its model (`MockView`);
  `laws.rs`, properties that hold across operations; `submount.rs` and
  `tables.rs`, parsers for mount tables, `/proc` files and tool output.
- `src/logging.rs` – log path validation, rotation and retention.
- `src/deactivation/` – deactivation reports, the decisions of a
  deactivation run (`run.rs`: the run's steps in order, cleanup outcome
  per mode, the decoy-switch steps, the run's report), overlay unmounting with remounting after a
  failure, and the real-disk history cleanup.
- `src/error.rs`, `src/text.rs`, `src/keymap.rs`, `src/clock.rs` – errors
  and their texts, decimal text, keyed maps, the clock (read through
  `std::time::SystemTime`, negative before the epoch).
- `app/` – what runs on a real machine: the `Filesystem` implementation
  with system calls, the logging subscriber, and error types with
  `Display`.
- `tests/` – tests of the library, run against the in-memory filesystem.

The operations of `Filesystem` state their effect in the model for any
implementation that follows it; `MockFilesystem` does, so the functions
that work through the trait (overlay checks, unmounting, log rotation,
history cleanup) are verified against the model as well as for whatever a
real machine answers.
