# speedtest_core

A very basic TCP speed test: a server that echoes (ping), streams data to
the client (download) or drains what the client sends (upload), and a CLI
that measures latency and throughput and prints CSV.

- `src/` is the verified library (Verus): the selector protocol and the
  server's per-connection state machine (`protocol`), the latency probe
  (`latency`) and its statistics (`stats`), the throughput meter
  (`throughput`), exact decimal rendering (`decimal`) and the CSV report
  (`csv`, `report`). Times are whole nanoseconds, byte counts integers, and
  means exact fractions; the report renders them, rounded only there, as
  milliseconds, seconds and Mbit/s.
- `app/` is the program around it (the CLI, with a `serve` subcommand for
  the server): argument parsing, sockets, the clock,
  spinners and the progress bar, and writing the report to a file or
  stdout. It drives the library's state machines.
- `tests/` runs the library on concrete values.
