# WinKeeper

A supervisor for command-line tools on the desktop: it starts and stops them, restarts them
within limits, collects their output in logs, shows their processes and their memory, and stops
what is left of them when it is gone.

- `src/` is the library. Its functions decide and compute, from plain values to plain values,
  and Verus proves their contracts.
- `app/` is the program around it: files, processes, signals, clocks, threads and the window.
- `tests/` runs the library.

| Module | Content |
| --- | --- |
| `config`, `paths`, `cli` | settings and their limits, where files lie, the command line |
| `tool`, `restart`, `supervisor`, `wait` | the states of one tool, its restarts, all tools, deadlines |
| `logging`, `time` | log files, the lines in memory, time stamps |
| `names`, `elevated` | names of files, the exchange with the elevated helper |
| `process`, `linux`, `launch`, `watchdog`, `windows` | process trees, what is run and how it is stopped |
| `autostart`, `instance`, `ui` | the session, one manager at a time, what the window shows |
| `text`, `number` | texts, decimal and hexadecimal numbers |

What the proofs rest on besides Verus and its library is declared in `src/text.rs`
(`String::push`, `str::to_lowercase`, `String::from_utf8_lossy`) and `src/time.rs`
(`DateTime::format` of `chrono`).
