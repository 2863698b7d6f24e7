# vibe_manager

The core of a desktop manager for local development servers, written in
Verus: every function in `src/` carries a contract that Verus proves.

- `src/models.rs`: project records, settings, the saved state and the
  dashboard snapshot.
- `src/manager.rs`: the manager's state and every operation on it:
  registering, editing and removing projects, the status model of starting,
  stopping, exits and quitting, restoring after a restart, and taking in
  discovery scans. Log text and the tray tooltip are here too.
- `src/discovery.rs`: finding development servers among listening sockets:
  parsing `lsof` output and the Windows listener table, classifying
  processes, quoting command lines, scoring and ranking candidates.
- `src/text.rs`: trimming, case folding, substring tests, decimal numbers
  and line splitting, each with an exact specification.
- `src/platform.rs`: the clock and the platform's path operations, called
  through trusted items whose contracts say what the standard library
  documents of them.
- `src/laws.rs`: properties that span operations, proved.
- `app/`: the desktop shell around the library (window, tray, files,
  processes and threads).
- `tests/`: tests of the library on concrete values.
