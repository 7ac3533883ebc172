# raft

A verified library for a file-based message bus between agents: conversations
and channels, messages with acknowledgement obligations, receipts, presence,
signed capability tokens, mesh packets between nodes, a health check of the
bus directory, and the decisions of a small local web UI.

- `src/` is the library, written in Verus. Every function there carries a
  contract over spec functions and is verified; calls into `chrono`, `sha2`,
  `ed25519-dalek`, `rand` and a few std functions go through small trusted
  wrappers whose contracts say what those crates document.
- `app/` is the command-line program around it: argument parsing, the file
  system, the clock, JSON files through `serde`, and the HTTP server loop. It
  hands the library plain values and acts on what comes back.
- `tests/` runs the library on concrete values.
