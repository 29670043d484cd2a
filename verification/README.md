# double_pendulum

A double-pendulum simulation (fourth-order Runge-Kutta) with strong- and
weak-scaling experiments and plots.

- `src/` is the verified library: parsing of the run settings, the names of
  trajectory files and experiment flags, the invocations that the scaling
  experiments time, and the reading of trajectory records (header detection,
  field splitting, choice of record columns and of animation frames).
- `app/` holds the programs, selected by a subcommand: the floating-point
  physics, the threads, the processes, CSV files, plots and the GIF.
- `tests/` exercises the library.
