# lsoff_rs

Lists the processes that listen on TCP and UDP ports, filters and sorts
them, prints them as a table or JSON, kills their processes after checking
their identity, and offers an interactive terminal view.

## Layout

- `src/` — the library, verified with Verus:
  - `text`, `net`: character sequences, decimal numbers, IP address parsing
    and printing;
  - `model`, `services`, `filter`, `sort`, `group`: entries, well-known
    service names, search, ordering, grouping of processes into view rows;
  - `sanitize`, `format`, `cli`, `kill`: display cleaning, the table, the
    command line, the kill checks and reports;
  - `sys`: the parsers of the operating systems' socket and process data
    (`/proc` on Linux, `KERN_PROCARGS2` and socket descriptors on macOS,
    `kern.proc` records on FreeBSD, the IP Helper tables on Windows);
  - `tui`: the state of the interactive view, its key and mouse handling,
    and the texts it shows.
- `app/` — the program: arguments, reading the system, the terminal, the
  clipboard and JSON output.
- `tests/` — tests of the library.
