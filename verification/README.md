# vsysmonitor

A terminal monitor of CPU, memory and disks for the local machine and for the hosts of an
SSH configuration.

- `src/` is the library, verified with Verus: the settings and how a settings file
  overrides them, the SSH configuration parser, the classification of probe failures, the
  scanning of the remote measurement output, the application state (host order, selection,
  key handling, refresh scheduling), page navigation, and the text, colours and sizes the
  screen shows.
- `app/` is the program around it: it reads the settings file and the SSH configuration,
  measures the local machine with `sysinfo`, runs `ping` and `ssh`, runs the collectors on
  threads, and draws with `ratatui` and `crossterm`. Fractional readings (percentages,
  temperatures, thresholds) are handled there.
- `tests/` runs the library on concrete values.
