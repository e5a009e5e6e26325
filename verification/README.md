# duplicate_engine

A verified library behind a duplicate-file finder: the scan request and result
model, exact byte-for-byte verification of candidate groups, the comparison of
the groups two engines found, and the decisions of the duplicate-files listing.

- `src/` is verified with Verus. Nothing there touches a file, a clock or
  another process: each verifier is a state machine that asks for the next file
  operation and is handed its outcome.
- `app/` performs those operations on disk, runs the duplicate-finding engines
  and the video probe, and feeds the GUI.
- `tests/` drive the verifiers over in-memory files.
