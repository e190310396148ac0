# bencher

Verified core of a benchmark harness that compares reference-counting
strategies of the Roc compiler (with and without Perceus, with and without
drop specialisation) against Koka and GHC.

- `src/` is verified with Verus:
  - `roc_configuration`: the compiler configurations and their build flags;
  - `text`: decimal formatting and parsing, path joining, the parent of a
    Unix path, slash removal;
  - `pattern`: the `regex` searches over tool output (trusted wrappers);
  - `runtime_performance`: the configuration and benchmark tables, the
    compiler and executable paths, the build commands, the `hyperfine`
    arguments, the reading of `/usr/bin/time -v`, the memory table, and the
    `PATH` given to GHC;
  - `build_performance`: the run scripts, the IR dump files, the
    reference-counting statistics read from the compiler's output, and the
    static and dynamic tables;
  - `drop_specialization`: the environment that records indexed children
    and their increments, in `bumpalo` arenas.
- `app/` runs the processes, reads the environment and writes the files.
- `tests/` exercises the library with the real `regex` and `bumpalo`.
