# tmignore

Makes Time Machine respect `.gitignore` files: what git ignores in the repositories of a user is
left out of the backups, but for what is on a whitelist.

- `src/` is the library. It is written in Verus, and every function states in its contract what
  it returns. It decides; it reads and writes no files, starts no processes and asks no clock.
- `app/` is the program around it: the command line, the files, the git and `tmutil` commands,
  the database, the threads and the log. What it finds it hands to the library as plain values.
- `tests/` runs the library.

| Module | What is in it |
| --- | --- |
| `order`, `sort`, `sorted_set` | total orders, sorting, sets in order |
| `path`, `text`, `duration`, `human_time`, `shell` | paths, texts, spans of time, the notation of the shell |
| `facts`, `report` | what was found in the file system, what is told to the user |
| `diff`, `cache`, `path_cache` | exclusions, differences between them, and the caches that keep them |
| `git`, `timemachine`, `whitelist` | what git and Time Machine say, and what stays in the backups |
| `config`, `legacy_config`, `legacy_cache`, `import` | the configuration, and what an older program left |
| `commands` | the commands: `run`, `monitor`, `reset`, `list`, `path`, `stats` |

The monitor is made of parts that take one input at a time: `commands::debouncer`,
`commands::watcher`, `commands::rescan` and `commands::monitor`. `commands::eager_monitor` is a
simpler one that looks for the repositories as soon as a file changes.
