# speedy

A private key-press counter: a background recorder counts key-down events per
hour of the day, stores the counts in SQLite, and a terminal dashboard shows
live, daily, hourly and long-term statistics.

Layout:

- `src/` is the verified library (Verus). It holds the statistics model
  (`stats`), row and status conversion for the database and the data paths
  (`store`), date handling through chrono (`calendar`), the dashboard state
  (`app`), key and argument handling (`cli`), the recorder's counting state
  (`recorder`), device-report handling (`capture`), the numbers and layouts
  that the dashboard draws (`ui`) and text helpers (`text`).
- `app/` is the program around it: SQLite access, evdev capture threads, the
  recorder process and its locks, terminal drawing with ratatui, and `main`.
- `tests/` exercises the library on concrete values.
