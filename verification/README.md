# loop_tasks

A to-do list for the terminal. Tasks carry a body, a context, a status (open
or closed) and a priority; the list view groups them by context, priority,
status or time of last update, moves a selection through the listing, and opens an
overlay to add or edit a task.

* `src/` is the library, verified with Verus: the tasks (`task`), the store
  and its operations (`store`), the groupings of the listing (`grouping`),
  the view state (`state`), key presses (`keys`), the edit overlay (`modal`),
  the list view's decisions (`app`), text helpers (`text`) and the
  properties that tie these together (`laws`).
* `app/` is the program around it: command line, terminal drawing with
  ratatui, key events from crossterm, and the JSON/TOML files.
* `tests/` runs the library on concrete values.
