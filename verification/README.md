# nq

A job queue kept in a directory. Each job is a file named `,TIMESTAMP.PID`; its first line is the
command to run, and the command's output and exit code follow. A worker process per job waits, by
means of file locks, until all earlier jobs have ended, so that one job runs at a time. This holds of
any two jobs, unless the file of the earlier one gets its name in the queue directory after the later
one's worker has read the directory and before that worker has ended. The lock on each job's own file
has no gap in any case.

- `src/` is the library, verified with Verus: job names and their order, exec lines and what a
  shell reads from them, the listing of a queue directory, and the decisions of the worker and of
  the `nq`, `nqtail` and `nqterm` commands as state machines that are told what happened and say
  what to do next.
- `tests/` runs the library.
- `app/` is the program around it: arguments, files, locks and processes.

The laws of the library are its public proof functions whose names start with `law_`. Those in
`src/system.rs` speak of many processes at one queue: those that queue jobs, and the workers.
