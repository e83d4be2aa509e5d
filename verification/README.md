# jqrutils

Three small Unix command-line wrappers:

- `quiet [-t <seconds>] [--] <command> [args...]` hides the command's output
  unless it fails (or runs longer than the time limit);
- `errfail [--] <command> [args...]` turns a successful run that wrote to
  stderr into exit code 2;
- `prefix [--stdout] [--stderr] <prefix> [--] <command> [args...]` puts a
  label in front of every line of output.

`src/` is a Verus-verified library with everything these tools decide:
argument parsing (`args`), exit codes (`exit`), relaying pipes verbatim or
line by line with a prefix (`lines`), and the hold-back-or-stream state of
`quiet` (`quiet`), together with proved laws about them. `app/` is the
program: it spawns the command, runs the reader threads and does the I/O,
asking the library what to do at each step. The tool runs under the name it
is invoked as (`errfail`, `prefix`, `quiet`), or as the first argument.
