# crush

An interactive command-line shell whose decision logic is verified with Verus.

- `src/` is the verified library: command-line tokenising and parsing,
  `&&`/`||`/`|` chaining, `$`/`~` expansion and the decision of what each
  command does, the wrapper-function interpreter (as a state machine that
  asks its caller for command output and file tests), the job table, the
  Starship-like prompt renderer, tab completion and highlighting, the `ls`
  listing (icons, colours, permissions, dates, grid and long layouts),
  `help`, key-binding plans and the configuration model.
- `app/` is the program around it: the terminal and line editor, processes,
  pipes and redirections, the file system, the configuration file reader
  and the main loop.
- `tests/` exercises the library on concrete values.
