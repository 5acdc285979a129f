# netwatch_monitor

A terminal dashboard that pings several servers and shows latency, loss,
TTL and the machine's external address.

- `src/` is the verified library (Verus): parsing of `ping` output
  (`ping`), the bounded histories (`history`), the dashboard's state and key
  handling (`monitor`), the continuous ping of the live view (`live`),
  settings and their defaults (`config`), the external-address records
  (`external_ip`), the screen texts (`screen`) and character-level text
  helpers (`text`).
- `app/` is the program around it: terminal, processes, HTTP, TOML and
  JSON reading, drawing, and the floating-point latency figures.
- `tests/` exercises the library on concrete values.
