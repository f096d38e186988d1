# sembazuru_agent

The verified core of the Sembazuru build agent, which runs the steps of a build on
other machines and falls back to the local one. The library decides; the program
around it reads files, talks to sockets and starts processes.

- `src/` holds the decisions, each with a contract that Verus proves: the action
  cache and its manifests, the tracker of running attempts, the table of workers,
  the file service with its path rules and write-backs, the intake of submissions
  and the authentication of its callers, the launch of local programs and the job
  that keeps their processes together. What would wait, read or write is a step
  that a state machine asks for; the program carries it out and hands back what
  came of it.
- `tests/` runs the library on concrete values.
- `app/` is the program around it: configuration files, sockets, processes, and the
  glue to the operating system.

The proof functions whose names begin with `law_` state what holds of the library as
a whole: that a manifest is read back as it was written, that no path leaves the
root of its session, that nothing a caller sends is heard before the caller is
known, that outputs are published all or none.
