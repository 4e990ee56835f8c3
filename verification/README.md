# statusline

A status line extension for a terminal host: one long-lived process that reads the
host's JSON lines and answers every tick with the rows of a powerline footer.

- `src/` is the verified library. Every function states in its contract what it
  returns; the `law_` proof functions state what holds across functions.
- `app/` is the program around it: standard input and output, the environment, the
  configuration file, and git on a thread of its own.
- `tests/` runs the library.

The row shows the live directory, the git branch with the number of changed files,
the model, and the token usage of the active session with the fullness of its
context. Usage events gather in a pending batch. A tick commits the batch: it
replaces the totals when the session is another one, since the host has then sent
that session's whole history, and adds to them otherwise.
