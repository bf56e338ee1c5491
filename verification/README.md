# plexus

A task runner for pnpm workspaces. It runs the scripts of the projects that a filter names and
of all that these depend on, from the bottom up: what a task depends on has succeeded before
the task begins.

- `src/` is the library, verified with Verus: loading tasks from the configuration, deciding
  what runs when, what a changed file resets, what the terminal shows and what a key does.
- `app/` is the program around it: the command line, processes, files, sockets and the
  terminal.
- `tests/` runs the library on concrete values.

The library comes in three editions that share their parts. `task_managerv2`,
`watch_managerv2` and `tui_managerv2` are the ones that the program runs. `task_manager`,
`watch_manager` and `tui_manager` keep all tasks in one shared state, and `classic` is driven
by a bus of events.
