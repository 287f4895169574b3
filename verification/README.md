# memory-harness

`memory-harness` runs one child command and reports what the kernel accounted to
it: its peak resident memory, CPU time, page faults and context switches, with
samples of its status and the memory of a cgroup of its own where asked for and
available.

- `src/` is the library, verified with Verus: the readers of the kernel's text
  files, the summaries of samples, the order of the steps of a run, and the texts
  of the report.
- `app/` is the program around it: the command line, files, processes and threads.
- `tests/` runs the library on concrete values.

The contracts are stated over sequences of characters and bytes. The proof
functions whose names start with `law_` state what holds of several functions
together, such as that a peak is the largest value sampled, that a child becomes
its command only once it was put into its cgroup, or that a child which was killed
at its deadline is reported as timed out.

Two functions of the standard library are trusted, in `src/render.rs`: the lossy
decoding of bytes and the `Debug` formatting of strings.
