# taskmaster

A job control daemon in the manner of Supervisor: it starts the programs of a
YAML configuration, keeps a process table, and answers a control shell
(`start`, `stop`, `restart`, `status`, `reload`, `help`, `exit`).

- `src/` is the verified library (Verus): command-line words, the client's
  command parsing and argument checks, the stand-alone shell, the configuration
  (defaults, clean-up, reload plan), and the daemon's decisions on its process
  table (`supervisor`), with the laws that tie them together (`laws`).
- `app/` runs it: the readline shells, the Unix socket, YAML, the clock, the
  fork into the background, and the child processes.
- `tests/` exercises the library on concrete values.
