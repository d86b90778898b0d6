# blvflag

A command-line helper for running Python scripts. It runs a script, keeps a
history of the script's versions (one directory for successful runs, one for
failed runs), shows which lines changed since the last saved version, and can
ask a local language model to explain an error.

- `src/` is the verified library: the line diff listing and change count,
  the naming and choice of saved versions, the steps that follow a run,
  the error graph of a Python
  traceback, the token overlap used to compare error lines, the handling of
  a streamed model answer, and the reading of the API key reply.
- `app/` is the program around it: argument parsing, processes, files,
  network requests, the progress bar, and the floating-point scores.
