# tube

The execution agent of a pipeline node: it loads its configuration and
secrets, reports the node as started, unpacks the repository archive into the
workspace, runs the user script while capturing its output into a capped log
buffer (masking secret values), uploads the log, reports the outcome and pokes
the backend.

Layout:

- `src/` — the verified library (Verus):
  - `lib.rs` — the order of a run's steps and what a failed step does;
  - `execution.rs` — the log buffer (10 MiB cap, oldest lines evicted first),
    the capture of the script's two output streams,
    the script's exit outcome, the periodic-upload decision;
  - `secrets.rs` — which secret files are taken, their order, and masking;
  - `text.rs` — character-sequence search and replacement;
  - `tube_config.rs` — required-value checks, getters, verbosity levels;
  - `status_update.rs` — status reports and the clock reading;
  - `workspace.rs` — archive format detection and member placement.
- `app/main.rs` — the binary: configuration sources, directory reads, HTTP,
  decompression, process spawning and the async loop.
- `tests/` — tests of the library.
