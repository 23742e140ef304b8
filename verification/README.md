# harvest_tools

The core of a harness that hands C programs to command-line agents, asks each for a Rust crate that
behaves the same, keeps what came back, and decides what may be published about it. What it decides
is stated in contracts and proved with Verus.

## Layout

- `src/` is the library.
  - `domain/`: paths inside a tree, what a tree's files are for, and what became of an agent's run by
    its transcript.
  - `artifact`: trees and their digests, the C reference that a run may not touch, sealed results.
  - `cache`, `store`, `invocation`: what a run is stored under, when it is replayed, and when an agent
    is run instead.
  - `agents/`: permits, sessions and their scripts, models and pins, working directories, and how a
    run is concluded.
  - `chain`, `battery`, `benchmark`, `eval`: the cases of a dataset, the chain of steps over each, the
    units that may be published, and the tree that a scorer works in.
  - `agent_health`, `fuzz_gate`, `exclusions`: which runs are no results, and which functions the
    fuzzing campaigns never reached.
  - `analyse/`: manifests of crates, counts of code, and the tables of a paper.
  - `io/sandbox`, `opencode`, `cli`: the policy that confines an agent, one program's configuration,
    and the command line.
  - `text`, `bytes`, `paths`, `names`, `json`, `toml`, `patterns`, `digest`, `program`: what the
    others stand on. The calls into outside crates are in `json`, `toml`, `patterns` and `digest`, and those
    into `syn` in `analyse/metrics`.
- `app/` is the program around it: the command line, the disk, the processes and threads, and
  whatever is computed in floating point.
- `tests/` runs the library on concrete values.

## Outside crates

The library calls `serde_json`, `toml_edit`, `regex`, `sha2` and `syn`. What it believes of each call is the
contract of the function that makes it, with a comment that says so in words.
